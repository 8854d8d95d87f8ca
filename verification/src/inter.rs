//! The runtime environment and the interpreter handle.
//!
//! `ForthEnv` holds the operand stack, the word dictionary, variable and
//! constant storage, pending variable references, loop registers, and the
//! output collected so far.  Every method's effect is stated over the
//! environment's view, an `EnvModel`.

use vstd::prelude::*;

use crate::lex::str_eq;
use crate::model::{assoc_get, assoc_remove, assoc_set, EnvModel, OutModel, RefModel, Tok, VarModel};
use crate::semantics::{emit_out, popped, pushed, spec_array_set};

verus! {

/// How deep nested evaluations (word calls, conditional branches, loop
/// bodies) may go before evaluation reports an error instead of recursing
/// further.
pub const DEFAULT_FUEL: u64 = 256;

/// The result type of the interpreter: success, or a descriptive message.
pub type ForthResult<T> = Result<T, String>;

/// A variable: a scalar cell, or a fixed-length array.
#[derive(Debug, Clone, PartialEq, Eq)]
pub enum ForthVar {
    Var(i32),
    Array(Vec<i32>),
}

/// A pending variable reference: a scalar handle, or an array handle with
/// its pending slot index.
#[derive(Debug, Clone, PartialEq, Eq, Hash)]
pub enum VarRef {
    Var(String),
    Array(String, i32),
}

/// One item of collected output.  Rendering these (and printing them) is
/// the caller's business; the evaluator only records them.
#[derive(Debug, Clone, PartialEq, Eq)]
pub enum OutputItem {
    /// Text emitted by a string literal form.
    Text(String),
    /// A number popped and printed in decimal.
    Num(i32),
    /// A byte popped and printed as a character.
    Chr(u8),
    /// A line break.
    Newline,
    /// A diagnostic dump of the operand stack.
    StackDump(Vec<i32>),
    /// A diagnostic dump of the word dictionary.
    FuncDump(Vec<(String, Vec<String>)>),
    /// A diagnostic dump of the variable table.
    VarDump(Vec<(String, ForthVar)>),
    /// A reported error; evaluation of the current token sequence halted.
    Error(String),
}

impl View for ForthVar {
    type V = VarModel;

    open spec fn view(&self) -> VarModel {
        match self {
            ForthVar::Var(x) => VarModel::Var(*x),
            ForthVar::Array(a) => VarModel::Array(a@),
        }
    }
}

impl View for VarRef {
    type V = RefModel;

    open spec fn view(&self) -> RefModel {
        match self {
            VarRef::Var(n) => RefModel::Var(n@),
            VarRef::Array(n, p) => RefModel::Array(n@, *p),
        }
    }
}

/// The views of a sequence of tokens.
pub open spec fn toks_deep(s: Seq<String>) -> Seq<Tok> {
    s.map_values(|t: String| t@)
}

/// The views of a word dictionary.
pub open spec fn funcs_deep(s: Seq<(String, Vec<String>)>) -> Seq<(Tok, Seq<Tok>)> {
    s.map_values(|p: (String, Vec<String>)| (p.0@, toks_deep(p.1@)))
}

/// The views of a variable table.
pub open spec fn vars_deep(s: Seq<(String, ForthVar)>) -> Seq<(Tok, VarModel)> {
    s.map_values(|p: (String, ForthVar)| (p.0@, p.1@))
}

/// The views of a constant or register table.
pub open spec fn pairs_deep(s: Seq<(String, i32)>) -> Seq<(Tok, i32)> {
    s.map_values(|p: (String, i32)| (p.0@, p.1))
}

/// The views of the pending variable references.
pub open spec fn refs_deep(s: Seq<VarRef>) -> Seq<RefModel> {
    s.map_values(|r: VarRef| r@)
}

/// The views of the collected output.
pub open spec fn out_deep(s: Seq<OutputItem>) -> Seq<OutModel> {
    s.map_values(|o: OutputItem| o@)
}

impl View for OutputItem {
    type V = OutModel;

    open spec fn view(&self) -> OutModel {
        match self {
            OutputItem::Text(s) => OutModel::Text(s@),
            OutputItem::Num(x) => OutModel::Num(*x),
            OutputItem::Chr(b) => OutModel::Chr(*b),
            OutputItem::Newline => OutModel::Newline,
            OutputItem::StackDump(s) => OutModel::StackDump(s@),
            OutputItem::FuncDump(f) => OutModel::FuncDump(funcs_deep(f@)),
            OutputItem::VarDump(v) => OutModel::VarDump(vars_deep(v@)),
            OutputItem::Error(m) => OutModel::Error(m@),
        }
    }
}

/// The runtime environment of one session.
pub struct ForthEnv {
    pub stack: Vec<i32>,
    pub funcs: Vec<(String, Vec<String>)>,
    pub vars: Vec<(String, ForthVar)>,
    pub var_refs: Vec<VarRef>,
    pub constants: Vec<(String, i32)>,
    pub specials: Vec<(String, i32)>,
    pub output: Vec<OutputItem>,
}

impl View for ForthEnv {
    type V = EnvModel;

    open spec fn view(&self) -> EnvModel {
        EnvModel {
            stack: self.stack@,
            funcs: funcs_deep(self.funcs@),
            vars: vars_deep(self.vars@),
            var_refs: refs_deep(self.var_refs@),
            constants: pairs_deep(self.constants@),
            specials: pairs_deep(self.specials@),
            out: out_deep(self.output@),
        }
    }
}

impl ForthEnv {
    /// A fresh, empty environment.
    pub fn empty() -> (e: ForthEnv)
        ensures
            e@ == EnvModel::initial(),
    {
        let e = ForthEnv {
            stack: Vec::new(),
            funcs: Vec::new(),
            vars: Vec::new(),
            var_refs: Vec::new(),
            constants: Vec::new(),
            specials: Vec::new(),
            output: Vec::new(),
        };
        proof {
            assert(e@ =~= EnvModel::initial());
        }
        e
    }

    /// Push one value on the operand stack.
    pub fn push(&mut self, val: i32)
        ensures
            final(self)@ == pushed(old(self)@, val),
    {
        self.stack.push(val);
        proof {
            assert(self@ =~= pushed(old(self)@, val));
        }
    }

    /// Pop the top of the operand stack; fail with `msg` when it is empty.
    pub fn pop(&mut self, msg: String) -> (r: ForthResult<i32>)
        ensures
            old(self)@.stack.len() == 0 ==> final(self)@ == old(self)@ && r is Err && r->Err_0@
                == msg@,
            old(self)@.stack.len() > 0 ==> final(self)@ == popped(old(self)@) && r == Ok::<
                i32,
                String,
            >(old(self)@.stack.last()),
    {
        match self.stack.pop() {
            Some(n) => {
                proof {
                    assert(self@ =~= popped(old(self)@));
                }
                Ok(n)
            },
            None => Err(msg),
        }
    }

    /// Read the top of the operand stack without popping; fail with `msg`
    /// when it is empty.
    pub fn top(&mut self, msg: String) -> (r: ForthResult<i32>)
        ensures
            final(self)@ == old(self)@,
            old(self)@.stack.len() == 0 ==> r is Err && r->Err_0@ == msg@,
            old(self)@.stack.len() > 0 ==> r == Ok::<i32, String>(old(self)@.stack.last()),
    {
        let n = self.stack.len();
        if n == 0 {
            Err(msg)
        } else {
            Ok(self.stack[n - 1])
        }
    }

    /// Append one item to the collected output.
    pub fn out_push(&mut self, item: OutputItem)
        ensures
            final(self)@ == emit_out(old(self)@, item@),
    {
        let ghost old_out = self.output@;
        self.output.push(item);
        proof {
            assert(out_deep(self.output@) =~= out_deep(old_out).push(item@));
            assert(self@ =~= emit_out(old(self)@, item@));
        }
    }

    /// Look a loop register up.
    pub fn get_special(&self, name: &str) -> (r: Option<i32>)
        ensures
            r == assoc_get(self@.specials, name@),
    {
        let n = self.specials.len();
        let mut j: usize = 0;
        while j < n
            invariant
                j <= n,
                n == self.specials@.len(),
                forall|k: int| 0 <= k < j ==> pairs_deep(self.specials@)[k].0 != name@,
            decreases n - j,
        {
            if str_eq(self.specials[j].0.as_str(), name) {
                proof {
                    crate::model::lemma_assoc_get_found(self@.specials, name@, j as int);
                }
                return Some(self.specials[j].1);
            }
            j += 1;
        }
        proof {
            crate::model::lemma_assoc_get_absent(self@.specials, name@);
        }
        None
    }

    /// Bind a loop register, returning the value it held before, if any.
    pub fn set_special(&mut self, name: &str, value: i32) -> (r: Option<i32>)
        ensures
            final(self)@ == (EnvModel {
                specials: assoc_set(old(self)@.specials, name@, value),
                ..old(self)@
            }),
            r == assoc_get(old(self)@.specials, name@),
    {
        let n = self.specials.len();
        let mut j: usize = 0;
        while j < n
            invariant
                j <= n,
                n == self.specials@.len(),
                self == old(self),
                forall|k: int| 0 <= k < j ==> pairs_deep(self.specials@)[k].0 != name@,
            decreases n - j,
        {
            if str_eq(self.specials[j].0.as_str(), name) {
                let prev = self.specials[j].1;
                let nm = self.specials[j].0.clone();
                let ghost old_specials = self.specials@;
                self.specials.set(j, (nm, value));
                proof {
                    crate::model::lemma_assoc_get_found(pairs_deep(old_specials), name@, j as int);
                    crate::model::lemma_assoc_set_found(
                        pairs_deep(old_specials),
                        name@,
                        value,
                        j as int,
                    );
                    assert(pairs_deep(self.specials@) =~= assoc_set(
                        pairs_deep(old_specials),
                        name@,
                        value,
                    ));
                    assert(self@ =~= (EnvModel {
                        specials: assoc_set(old(self)@.specials, name@, value),
                        ..old(self)@
                    }));
                }
                return Some(prev);
            }
            j += 1;
        }
        let ghost old_specials = self.specials@;
        self.specials.push((name.to_owned(), value));
        proof {
            crate::model::lemma_assoc_get_absent(pairs_deep(old_specials), name@);
            crate::model::lemma_assoc_set_absent(pairs_deep(old_specials), name@, value);
            assert(pairs_deep(self.specials@) =~= assoc_set(
                pairs_deep(old_specials),
                name@,
                value,
            ));
            assert(self@ =~= (EnvModel {
                specials: assoc_set(old(self)@.specials, name@, value),
                ..old(self)@
            }));
        }
        None
    }

    /// Unbind a loop register, returning the value it held, if any.
    pub fn clear_special(&mut self, name: &str) -> (r: Option<i32>)
        ensures
            final(self)@ == (EnvModel {
                specials: assoc_remove(old(self)@.specials, name@),
                ..old(self)@
            }),
            r == assoc_get(old(self)@.specials, name@),
    {
        let n = self.specials.len();
        let mut j: usize = 0;
        while j < n
            invariant
                j <= n,
                n == self.specials@.len(),
                self == old(self),
                forall|k: int| 0 <= k < j ==> pairs_deep(self.specials@)[k].0 != name@,
            decreases n - j,
        {
            if str_eq(self.specials[j].0.as_str(), name) {
                let prev = self.specials[j].1;
                let ghost old_specials = self.specials@;
                self.specials.remove(j);
                proof {
                    crate::model::lemma_assoc_get_found(pairs_deep(old_specials), name@, j as int);
                    crate::model::lemma_assoc_remove_found(
                        pairs_deep(old_specials),
                        name@,
                        j as int,
                    );
                    assert(pairs_deep(self.specials@) =~= assoc_remove(
                        pairs_deep(old_specials),
                        name@,
                    ));
                    assert(self@ =~= (EnvModel {
                        specials: assoc_remove(old(self)@.specials, name@),
                        ..old(self)@
                    }));
                }
                return Some(prev);
            }
            j += 1;
        }
        proof {
            crate::model::lemma_assoc_get_absent(pairs_deep(self.specials@), name@);
            crate::model::lemma_assoc_remove_absent(pairs_deep(self.specials@), name@);
            assert(self@ =~= (EnvModel {
                specials: assoc_remove(old(self)@.specials, name@),
                ..old(self)@
            }));
        }
        None
    }
}

/// Copy a vector of integers.
pub fn copy_i32_vec(v: &Vec<i32>) -> (r: Vec<i32>)
    ensures
        r@ == v@,
{
    let mut r: Vec<i32> = Vec::new();
    let n = v.len();
    let mut j: usize = 0;
    while j < n
        invariant
            j <= n,
            n == v@.len(),
            r@ == v@.take(j as int),
        decreases n - j,
    {
        r.push(v[j]);
        proof {
            assert(r@ =~= v@.take(j + 1));
        }
        j += 1;
    }
    proof {
        assert(v@.take(n as int) =~= v@);
    }
    r
}

/// Copy a vector of tokens; the copy holds equal strings.
pub fn clone_tok_vec(v: &Vec<String>) -> (r: Vec<String>)
    ensures
        r@ == v@,
{
    let mut r: Vec<String> = Vec::new();
    let n = v.len();
    let mut j: usize = 0;
    while j < n
        invariant
            j <= n,
            n == v@.len(),
            r@ == v@.take(j as int),
        decreases n - j,
    {
        r.push(v[j].clone());
        proof {
            assert(r@ =~= v@.take(j + 1));
        }
        j += 1;
    }
    proof {
        assert(v@.take(n as int) =~= v@);
    }
    r
}

/// Copy one variable, preserving its model.
pub fn clone_var(v: &ForthVar) -> (r: ForthVar)
    ensures
        r@ == v@,
{
    match v {
        ForthVar::Var(x) => ForthVar::Var(*x),
        ForthVar::Array(a) => ForthVar::Array(copy_i32_vec(a)),
    }
}

/// Copy one variable reference, preserving its model.
pub fn clone_ref(r: &VarRef) -> (c: VarRef)
    ensures
        c@ == r@,
{
    match r {
        VarRef::Var(n) => VarRef::Var(n.clone()),
        VarRef::Array(n, p) => VarRef::Array(n.clone(), *p),
    }
}

/// Copy a word dictionary, preserving its model.
pub fn clone_funcs(v: &Vec<(String, Vec<String>)>) -> (r: Vec<(String, Vec<String>)>)
    ensures
        funcs_deep(r@) == funcs_deep(v@),
{
    let mut r: Vec<(String, Vec<String>)> = Vec::new();
    let n = v.len();
    let mut j: usize = 0;
    while j < n
        invariant
            j <= n,
            n == v@.len(),
            r@.len() == j,
            funcs_deep(r@) == funcs_deep(v@.take(j as int)),
        decreases n - j,
    {
        let name = v[j].0.clone();
        let body = clone_tok_vec(&v[j].1);
        proof {
            assert(name == v@[j as int].0);
            assert(body@ == v@[j as int].1@);
        }
        let ghost old_r = r@;
        r.push((name, body));
        proof {
            assert forall|k: int| 0 <= k < j + 1 implies funcs_deep(r@)[k] == funcs_deep(
                v@.take(j + 1),
            )[k] by {
                assert(v@.take(j + 1)[k] == v@[k]);
                if k < j {
                    assert(r@[k] == old_r[k]);
                    assert(funcs_deep(old_r)[k] == funcs_deep(v@.take(j as int))[k]);
                    assert(v@.take(j as int)[k] == v@[k]);
                } else {
                    assert(r@[k].0@ == v@[k].0@);
                    assert(toks_deep(r@[k].1@) == toks_deep(v@[k].1@));
                }
            }
            assert(funcs_deep(r@) =~= funcs_deep(v@.take(j + 1)));
        }
        j += 1;
    }
    proof {
        assert(v@.take(n as int) =~= v@);
    }
    r
}

/// Copy a variable table, preserving its model.
pub fn clone_vars_table(v: &Vec<(String, ForthVar)>) -> (r: Vec<(String, ForthVar)>)
    ensures
        vars_deep(r@) == vars_deep(v@),
{
    let mut r: Vec<(String, ForthVar)> = Vec::new();
    let n = v.len();
    let mut j: usize = 0;
    while j < n
        invariant
            j <= n,
            n == v@.len(),
            r@.len() == j,
            vars_deep(r@) == vars_deep(v@.take(j as int)),
        decreases n - j,
    {
        let name = v[j].0.clone();
        let var = clone_var(&v[j].1);
        proof {
            assert(name == v@[j as int].0);
            assert(var@ == v@[j as int].1@);
        }
        let ghost old_r = r@;
        r.push((name, var));
        proof {
            assert forall|k: int| 0 <= k < j + 1 implies vars_deep(r@)[k] == vars_deep(
                v@.take(j + 1),
            )[k] by {
                assert(v@.take(j + 1)[k] == v@[k]);
                if k < j {
                    assert(r@[k] == old_r[k]);
                    assert(vars_deep(old_r)[k] == vars_deep(v@.take(j as int))[k]);
                    assert(v@.take(j as int)[k] == v@[k]);
                } else {
                    assert(r@[k].0@ == v@[k].0@);
                    assert(r@[k].1@ == v@[k].1@);
                }
            }
            assert(vars_deep(r@) =~= vars_deep(v@.take(j + 1)));
        }
        j += 1;
    }
    proof {
        assert(v@.take(n as int) =~= v@);
    }
    r
}

impl ForthEnv {
    /// Index of the first variable named `name`, if any.
    fn find_var(&self, name: &str) -> (r: Option<usize>)
        ensures
            match r {
                Some(j) => j < self.vars@.len() && vars_deep(self.vars@)[j as int].0 == name@
                    && (forall|k: int| 0 <= k < j ==> vars_deep(self.vars@)[k].0 != name@),
                None => forall|k: int|
                    0 <= k < self.vars@.len() ==> vars_deep(self.vars@)[k].0 != name@,
            },
    {
        let n = self.vars.len();
        let mut j: usize = 0;
        while j < n
            invariant
                j <= n,
                n == self.vars@.len(),
                forall|k: int| 0 <= k < j ==> vars_deep(self.vars@)[k].0 != name@,
            decreases n - j,
        {
            if str_eq(self.vars[j].0.as_str(), name) {
                return Some(j);
            }
            j += 1;
        }
        None
    }

    /// The variable named `name`, copied out, if any.
    pub fn get_variable(&self, name: &str) -> (r: Option<ForthVar>)
        ensures
            match (r, assoc_get(self@.vars, name@)) {
                (None, None) => true,
                (Some(v), Some(m)) => v@ == m,
                _ => false,
            },
    {
        match self.find_var(name) {
            Some(j) => {
                proof {
                    crate::model::lemma_assoc_get_found(self@.vars, name@, j as int);
                }
                Some(clone_var(&self.vars[j].1))
            },
            None => {
                proof {
                    crate::model::lemma_assoc_get_absent(self@.vars, name@);
                }
                None
            },
        }
    }

    /// Bind `name` to `var`, overwriting any variable of that name.
    pub fn add_variable(&mut self, name: &str, var: ForthVar)
        ensures
            final(self)@ == (EnvModel {
                vars: assoc_set(old(self)@.vars, name@, var@),
                ..old(self)@
            }),
    {
        let ghost old_vars = self.vars@;
        match self.find_var(name) {
            Some(j) => {
                let nm = self.vars[j].0.clone();
                self.vars.set(j, (nm, var));
                proof {
                    crate::model::lemma_assoc_set_found(
                        vars_deep(old_vars),
                        name@,
                        var@,
                        j as int,
                    );
                    assert(vars_deep(self.vars@) =~= assoc_set(vars_deep(old_vars), name@, var@));
                    assert(self@ =~= (EnvModel {
                        vars: assoc_set(old(self)@.vars, name@, var@),
                        ..old(self)@
                    }));
                }
            },
            None => {
                self.vars.push((name.to_owned(), var));
                proof {
                    crate::model::lemma_assoc_set_absent(vars_deep(old_vars), name@, var@);
                    assert(vars_deep(self.vars@) =~= assoc_set(vars_deep(old_vars), name@, var@));
                    assert(self@ =~= (EnvModel {
                        vars: assoc_set(old(self)@.vars, name@, var@),
                        ..old(self)@
                    }));
                }
            },
        }
    }

    /// Convert the variable `name` into a zero-initialized array of the
    /// given length.
    pub fn allot_array(&mut self, name: &str, length: i32)
        requires
            length >= 0,
        ensures
            final(self)@ == (EnvModel {
                vars: assoc_set(
                    old(self)@.vars,
                    name@,
                    VarModel::Array(Seq::new(length as nat, |i: int| 0i32)),
                ),
                ..old(self)@
            }),
    {
        let mut zeros: Vec<i32> = Vec::new();
        let len = length as usize;
        let mut j: usize = 0;
        while j < len
            invariant
                j <= len,
                zeros@ =~= Seq::new(j as nat, |i: int| 0i32),
            decreases len - j,
        {
            zeros.push(0);
            proof {
                assert(zeros@ =~= Seq::new((j + 1) as nat, |i: int| 0i32));
            }
            j += 1;
        }
        self.add_variable(name, ForthVar::Array(zeros));
    }

    /// Write `value` into slot `pos` of the array variable `name`.
    pub fn array_set(&mut self, name: &str, pos: i32, value: i32) -> (r: ForthResult<()>)
        ensures
            ({
                let nv = spec_array_set(old(self)@.vars, name@, pos, value).0;
                let em = spec_array_set(old(self)@.vars, name@, pos, value).1;
                final(self)@ == (EnvModel { vars: nv, ..old(self)@ }) && (match em {
                    None => r is Ok,
                    Some(m) => r is Err && r->Err_0@ == m,
                })
            }),
    {
        let ghost old_vars = self.vars@;
        match self.find_var(name) {
            None => {
                proof {
                    crate::model::lemma_assoc_get_absent(self@.vars, name@);
                }
                let mut m = "No such array variable: ".to_owned();
                m.append(name);
                Err(m)
            },
            Some(j) => {
                proof {
                    crate::model::lemma_assoc_get_found(self@.vars, name@, j as int);
                }
                let stored = clone_var(&self.vars[j].1);
                match stored {
                    ForthVar::Var(_) => {
                        let mut m = "Variable is not an array: ".to_owned();
                        m.append(name);
                        Err(m)
                    },
                    ForthVar::Array(a) => {
                        if 0 <= pos && (pos as usize) < a.len() {
                            let ghost olda = a@;
                            let mut arr = a;
                            arr.set(pos as usize, value);
                            let nm = self.vars[j].0.clone();
                            self.vars.set(j, (nm, ForthVar::Array(arr)));
                            proof {
                                let m = vars_deep(old_vars);
                                let newv = VarModel::Array(olda.update(pos as int, value));
                                assert(m[j as int].1 == VarModel::Array(olda));
                                crate::model::lemma_assoc_set_found(m, name@, newv, j as int);
                                assert(vars_deep(self.vars@) =~= m.update(
                                    j as int,
                                    (name@, newv),
                                ));
                                assert(spec_array_set(m, name@, pos, value).0 == assoc_set(
                                    m,
                                    name@,
                                    newv,
                                ));
                                assert(self@ =~= (EnvModel {
                                    vars: spec_array_set(old(self)@.vars, name@, pos, value).0,
                                    ..old(self)@
                                }));
                            }
                            Ok(())
                        } else {
                            let mut m = "Cannot set at that position: ".to_owned();
                            m.append(name);
                            Err(m)
                        }
                    },
                }
            },
        }
    }

    /// Index of the first word named `name`, if any.
    fn find_func(&self, name: &str) -> (r: Option<usize>)
        ensures
            match r {
                Some(j) => j < self.funcs@.len() && funcs_deep(self.funcs@)[j as int].0 == name@
                    && (forall|k: int| 0 <= k < j ==> funcs_deep(self.funcs@)[k].0 != name@),
                None => forall|k: int|
                    0 <= k < self.funcs@.len() ==> funcs_deep(self.funcs@)[k].0 != name@,
            },
    {
        let n = self.funcs.len();
        let mut j: usize = 0;
        while j < n
            invariant
                j <= n,
                n == self.funcs@.len(),
                forall|k: int| 0 <= k < j ==> funcs_deep(self.funcs@)[k].0 != name@,
            decreases n - j,
        {
            if str_eq(self.funcs[j].0.as_str(), name) {
                return Some(j);
            }
            j += 1;
        }
        None
    }

    /// The body of the word named `name`, copied out, if any.
    pub fn get_function(&self, name: &str) -> (r: Option<Vec<String>>)
        ensures
            match (r, assoc_get(self@.funcs, name@)) {
                (None, None) => true,
                (Some(b), Some(m)) => toks_deep(b@) == m,
                _ => false,
            },
    {
        match self.find_func(name) {
            Some(j) => {
                proof {
                    crate::model::lemma_assoc_get_found(self@.funcs, name@, j as int);
                }
                Some(clone_tok_vec(&self.funcs[j].1))
            },
            None => {
                proof {
                    crate::model::lemma_assoc_get_absent(self@.funcs, name@);
                }
                None
            },
        }
    }

    /// Store `body` as the word named `name`, overwriting any word of that
    /// name.
    pub fn add_function(&mut self, name: &str, body: Vec<String>)
        ensures
            final(self)@ == (EnvModel {
                funcs: assoc_set(old(self)@.funcs, name@, toks_deep(body@)),
                ..old(self)@
            }),
    {
        let ghost old_funcs = self.funcs@;
        let ghost bodyv = toks_deep(body@);
        match self.find_func(name) {
            Some(j) => {
                let nm = self.funcs[j].0.clone();
                self.funcs.set(j, (nm, body));
                proof {
                    crate::model::lemma_assoc_set_found(
                        funcs_deep(old_funcs),
                        name@,
                        bodyv,
                        j as int,
                    );
                    assert(funcs_deep(self.funcs@) =~= assoc_set(
                        funcs_deep(old_funcs),
                        name@,
                        bodyv,
                    ));
                    assert(self@ =~= (EnvModel {
                        funcs: assoc_set(old(self)@.funcs, name@, bodyv),
                        ..old(self)@
                    }));
                }
            },
            None => {
                self.funcs.push((name.to_owned(), body));
                proof {
                    crate::model::lemma_assoc_set_absent(funcs_deep(old_funcs), name@, bodyv);
                    assert(funcs_deep(self.funcs@) =~= assoc_set(
                        funcs_deep(old_funcs),
                        name@,
                        bodyv,
                    ));
                    assert(self@ =~= (EnvModel {
                        funcs: assoc_set(old(self)@.funcs, name@, bodyv),
                        ..old(self)@
                    }));
                }
            },
        }
    }

    /// Index of the first constant named `name`, if any.
    fn find_const(&self, name: &str) -> (r: Option<usize>)
        ensures
            match r {
                Some(j) => j < self.constants@.len() && pairs_deep(self.constants@)[j as int].0
                    == name@ && (forall|k: int|
                    0 <= k < j ==> pairs_deep(self.constants@)[k].0 != name@),
                None => forall|k: int|
                    0 <= k < self.constants@.len() ==> pairs_deep(self.constants@)[k].0 != name@,
            },
    {
        let n = self.constants.len();
        let mut j: usize = 0;
        while j < n
            invariant
                j <= n,
                n == self.constants@.len(),
                forall|k: int| 0 <= k < j ==> pairs_deep(self.constants@)[k].0 != name@,
            decreases n - j,
        {
            if str_eq(self.constants[j].0.as_str(), name) {
                return Some(j);
            }
            j += 1;
        }
        None
    }

    /// Look a constant up.
    pub fn get_constant(&self, name: &str) -> (r: Option<i32>)
        ensures
            r == assoc_get(self@.constants, name@),
    {
        match self.find_const(name) {
            Some(j) => {
                proof {
                    crate::model::lemma_assoc_get_found(self@.constants, name@, j as int);
                }
                Some(self.constants[j].1)
            },
            None => {
                proof {
                    crate::model::lemma_assoc_get_absent(self@.constants, name@);
                }
                None
            },
        }
    }

    /// Bind a constant, overwriting any constant of that name.
    pub fn add_constant(&mut self, name: &str, value: i32)
        ensures
            final(self)@ == (EnvModel {
                constants: assoc_set(old(self)@.constants, name@, value),
                ..old(self)@
            }),
    {
        let ghost old_consts = self.constants@;
        match self.find_const(name) {
            Some(j) => {
                let nm = self.constants[j].0.clone();
                self.constants.set(j, (nm, value));
                proof {
                    crate::model::lemma_assoc_set_found(
                        pairs_deep(old_consts),
                        name@,
                        value,
                        j as int,
                    );
                    assert(pairs_deep(self.constants@) =~= assoc_set(
                        pairs_deep(old_consts),
                        name@,
                        value,
                    ));
                    assert(self@ =~= (EnvModel {
                        constants: assoc_set(old(self)@.constants, name@, value),
                        ..old(self)@
                    }));
                }
            },
            None => {
                self.constants.push((name.to_owned(), value));
                proof {
                    crate::model::lemma_assoc_set_absent(pairs_deep(old_consts), name@, value);
                    assert(pairs_deep(self.constants@) =~= assoc_set(
                        pairs_deep(old_consts),
                        name@,
                        value,
                    ));
                    assert(self@ =~= (EnvModel {
                        constants: assoc_set(old(self)@.constants, name@, value),
                        ..old(self)@
                    }));
                }
            },
        }
    }

    /// Push a pending variable reference.
    pub fn push_variable_ref(&mut self, r: VarRef)
        ensures
            final(self)@ == (EnvModel {
                var_refs: old(self)@.var_refs.push(r@),
                ..old(self)@
            }),
    {
        let ghost old_refs = self.var_refs@;
        self.var_refs.push(r);
        proof {
            assert(refs_deep(self.var_refs@) =~= refs_deep(old_refs).push(r@));
            assert(self@ =~= (EnvModel { var_refs: old(self)@.var_refs.push(r@), ..old(self)@ }));
        }
    }

    /// Pop the most recent pending variable reference, if any.
    pub fn pop_variable_ref(&mut self) -> (r: Option<VarRef>)
        ensures
            old(self)@.var_refs.len() == 0 ==> r is None && final(self)@ == old(self)@,
            old(self)@.var_refs.len() > 0 ==> r is Some && r.unwrap()@ == old(
                self,
            )@.var_refs.last() && final(self)@ == (EnvModel {
                var_refs: old(self)@.var_refs.drop_last(),
                ..old(self)@
            }),
    {
        let ghost old_refs = self.var_refs@;
        match self.var_refs.pop() {
            Some(v) => {
                proof {
                    assert(refs_deep(self.var_refs@) =~= refs_deep(old_refs).drop_last());
                    assert(self@ =~= (EnvModel {
                        var_refs: old(self)@.var_refs.drop_last(),
                        ..old(self)@
                    }));
                }
                Some(v)
            },
            None => None,
        }
    }

    /// The most recent pending variable reference, copied out, if any.
    pub fn top_variable_ref(&self) -> (r: Option<VarRef>)
        ensures
            self@.var_refs.len() == 0 ==> r is None,
            self@.var_refs.len() > 0 ==> r is Some && r.unwrap()@ == self@.var_refs.last(),
    {
        let n = self.var_refs.len();
        if n == 0 {
            None
        } else {
            Some(clone_ref(&self.var_refs[n - 1]))
        }
    }

    /// Record a dump of the operand stack in the output.
    pub fn print_stack(&mut self)
        ensures
            final(self)@ == emit_out(old(self)@, OutModel::StackDump(old(self)@.stack)),
    {
        let c = copy_i32_vec(&self.stack);
        self.out_push(OutputItem::StackDump(c));
    }

    /// Record a dump of the word dictionary in the output.
    pub fn print_func(&mut self)
        ensures
            final(self)@ == emit_out(old(self)@, OutModel::FuncDump(old(self)@.funcs)),
    {
        let c = clone_funcs(&self.funcs);
        self.out_push(OutputItem::FuncDump(c));
    }

    /// Record a dump of the variable table in the output.
    pub fn print_vars(&mut self)
        ensures
            final(self)@ == emit_out(old(self)@, OutModel::VarDump(old(self)@.vars)),
    {
        let c = clone_vars_table(&self.vars);
        self.out_push(OutputItem::VarDump(c));
    }

    /// Discard the collected output, so a caller that has printed it can
    /// reuse the environment.
    pub fn clear_output(&mut self)
        ensures
            final(self)@ == (EnvModel { out: Seq::empty(), ..old(self)@ }),
    {
        self.output = Vec::new();
        proof {
            assert(self@ =~= (EnvModel { out: Seq::empty(), ..old(self)@ }));
        }
    }
}

/// The interpreter: its builtin operator table is fixed, so the handle
/// itself carries no state.
pub struct Interpreter {}

impl Interpreter {
    /// A new interpreter with the fixed builtin operator table.
    pub fn new() -> Interpreter {
        Interpreter {  }
    }
}

} // verus!
