//! The mathematical model of the runtime environment.
//!
//! Every executable type of the interpreter has a view in this module:
//! tokens are sequences of characters, the stack is a sequence of 32-bit
//! integers, and the dictionary, variable, constant and register tables are
//! association sequences (ordered key/value pairs, looked up and updated at
//! the first matching key).

use vstd::prelude::*;

verus! {

/// A token: the view of one whitespace-delimited piece of program text.
pub type Tok = Seq<char>;

/// The model of one variable: a scalar cell or a fixed-length array.
#[verifier::ext_equal]
pub ghost enum VarModel {
    Var(i32),
    Array(Seq<i32>),
}

/// The model of one pending variable reference: a scalar handle, or an
/// array handle carrying the pending slot index.
#[verifier::ext_equal]
pub ghost enum RefModel {
    Var(Tok),
    Array(Tok, i32),
}

/// The model of one item of collected output.
#[verifier::ext_equal]
pub ghost enum OutModel {
    /// Text emitted by a string literal form.
    Text(Seq<char>),
    /// A number popped and printed in decimal.
    Num(i32),
    /// A byte popped and printed as a character.
    Chr(u8),
    /// A line break.
    Newline,
    /// A diagnostic dump of the operand stack.
    StackDump(Seq<i32>),
    /// A diagnostic dump of the word dictionary.
    FuncDump(Seq<(Tok, Seq<Tok>)>),
    /// A diagnostic dump of the variable table.
    VarDump(Seq<(Tok, VarModel)>),
    /// A reported error; evaluation of the current token sequence halts.
    Error(Seq<char>),
}

/// The model of the whole runtime environment.
#[verifier::ext_equal]
pub ghost struct EnvModel {
    pub stack: Seq<i32>,
    pub funcs: Seq<(Tok, Seq<Tok>)>,
    pub vars: Seq<(Tok, VarModel)>,
    pub var_refs: Seq<RefModel>,
    pub constants: Seq<(Tok, i32)>,
    pub specials: Seq<(Tok, i32)>,
    pub out: Seq<OutModel>,
}

impl EnvModel {
    /// The environment a fresh session starts from.
    pub open spec fn initial() -> EnvModel {
        EnvModel {
            stack: Seq::empty(),
            funcs: Seq::empty(),
            vars: Seq::empty(),
            var_refs: Seq::empty(),
            constants: Seq::empty(),
            specials: Seq::empty(),
            out: Seq::empty(),
        }
    }
}

/// First value bound to `k`, scanning the pairs left to right.
pub open spec fn assoc_get<V>(m: Seq<(Tok, V)>, k: Tok) -> Option<V>
    decreases m.len(),
{
    if m.len() == 0 {
        None
    } else if m[0].0 == k {
        Some(m[0].1)
    } else {
        assoc_get(m.drop_first(), k)
    }
}

/// Bind `k` to `v`: overwrite the first pair with key `k` in place, or
/// append a new pair when no key matches.
pub open spec fn assoc_set<V>(m: Seq<(Tok, V)>, k: Tok, v: V) -> Seq<(Tok, V)>
    decreases m.len(),
{
    if m.len() == 0 {
        seq![(k, v)]
    } else if m[0].0 == k {
        seq![(k, v)] + m.drop_first()
    } else {
        seq![m[0]] + assoc_set(m.drop_first(), k, v)
    }
}

/// Remove the first pair with key `k`, if any.
pub open spec fn assoc_remove<V>(m: Seq<(Tok, V)>, k: Tok) -> Seq<(Tok, V)>
    decreases m.len(),
{
    if m.len() == 0 {
        m
    } else if m[0].0 == k {
        m.drop_first()
    } else {
        seq![m[0]] + assoc_remove(m.drop_first(), k)
    }
}

/// What `assoc_get` returns at a key that some pair holds: the value of the
/// first such pair.
pub proof fn lemma_assoc_get_found<V>(m: Seq<(Tok, V)>, k: Tok, i: int)
    requires
        0 <= i < m.len(),
        m[i].0 == k,
        forall|j: int| 0 <= j < i ==> m[j].0 != k,
    ensures
        assoc_get(m, k) == Some(m[i].1),
    decreases i,
{
    if i == 0 {
    } else {
        assert(m.drop_first() =~= m.skip(1));
        lemma_assoc_get_found(m.drop_first(), k, i - 1);
    }
}

/// What `assoc_get` returns at a key that no pair holds.
pub proof fn lemma_assoc_get_absent<V>(m: Seq<(Tok, V)>, k: Tok)
    requires
        forall|j: int| 0 <= j < m.len() ==> m[j].0 != k,
    ensures
        assoc_get(m, k) is None,
    decreases m.len(),
{
    if m.len() > 0 {
        lemma_assoc_get_absent(m.drop_first(), k);
    }
}

/// `assoc_set` at a key that the first `i` pairs do not hold leaves those
/// pairs unchanged and updates the rest.
pub proof fn lemma_assoc_set_skip<V>(m: Seq<(Tok, V)>, k: Tok, v: V, i: int)
    requires
        0 <= i <= m.len(),
        forall|j: int| 0 <= j < i ==> m[j].0 != k,
    ensures
        assoc_set(m, k, v) == m.take(i) + assoc_set(m.skip(i), k, v),
    decreases i,
{
    if i == 0 {
        assert(m.take(0) + assoc_set(m.skip(0), k, v) =~= assoc_set(m, k, v)) by {
            assert(m.skip(0) =~= m);
            assert(m.take(0) =~= Seq::<(Tok, V)>::empty());
        }
    } else {
        assert(m.drop_first() =~= m.skip(1));
        lemma_assoc_set_skip(m.drop_first(), k, v, i - 1);
        assert(seq![m[0]] + (m.drop_first().take(i - 1) + assoc_set(m.drop_first().skip(i - 1), k, v))
            =~= m.take(i) + assoc_set(m.skip(i), k, v)) by {
            assert(m.drop_first().skip(i - 1) =~= m.skip(i));
            assert(seq![m[0]] + m.drop_first().take(i - 1) =~= m.take(i));
        }
    }
}

/// Updating the pair at `i`, the first whose key is `k`, is what
/// `assoc_set` does.
pub proof fn lemma_assoc_set_found<V>(m: Seq<(Tok, V)>, k: Tok, v: V, i: int)
    requires
        0 <= i < m.len(),
        m[i].0 == k,
        forall|j: int| 0 <= j < i ==> m[j].0 != k,
    ensures
        assoc_set(m, k, v) == m.update(i, (k, v)),
    decreases i,
{
    lemma_assoc_set_skip(m, k, v, i);
    assert(m.skip(i)[0] == m[i]);
    assert(assoc_set(m.skip(i), k, v) == seq![(k, v)] + m.skip(i).drop_first());
    assert(m.take(i) + (seq![(k, v)] + m.skip(i).drop_first()) =~= m.update(i, (k, v)));
}

/// Appending a new pair at the end, when no key is `k`, is what
/// `assoc_set` does.
pub proof fn lemma_assoc_set_absent<V>(m: Seq<(Tok, V)>, k: Tok, v: V)
    requires
        forall|j: int| 0 <= j < m.len() ==> m[j].0 != k,
    ensures
        assoc_set(m, k, v) == m.push((k, v)),
    decreases m.len(),
{
    lemma_assoc_set_skip(m, k, v, m.len() as int);
    assert(m.skip(m.len() as int) =~= Seq::<(Tok, V)>::empty());
    assert(m.take(m.len() as int) =~= m);
    assert(m + seq![(k, v)] =~= m.push((k, v)));
}

/// Removing at a key that the first `i` pairs do not hold leaves those
/// pairs unchanged and removes in the rest.
pub proof fn lemma_assoc_remove_skip<V>(m: Seq<(Tok, V)>, k: Tok, i: int)
    requires
        0 <= i <= m.len(),
        forall|j: int| 0 <= j < i ==> m[j].0 != k,
    ensures
        assoc_remove(m, k) == m.take(i) + assoc_remove(m.skip(i), k),
    decreases i,
{
    if i == 0 {
        assert(m.take(0) + assoc_remove(m.skip(0), k) =~= assoc_remove(m, k)) by {
            assert(m.skip(0) =~= m);
            assert(m.take(0) =~= Seq::<(Tok, V)>::empty());
        }
    } else {
        assert(m.drop_first() =~= m.skip(1));
        lemma_assoc_remove_skip(m.drop_first(), k, i - 1);
        assert(seq![m[0]] + (m.drop_first().take(i - 1) + assoc_remove(m.drop_first().skip(i - 1), k))
            =~= m.take(i) + assoc_remove(m.skip(i), k)) by {
            assert(m.drop_first().skip(i - 1) =~= m.skip(i));
            assert(seq![m[0]] + m.drop_first().take(i - 1) =~= m.take(i));
        }
    }
}

/// Removing the pair at `i`, the first whose key is `k`, is what
/// `assoc_remove` does.
pub proof fn lemma_assoc_remove_found<V>(m: Seq<(Tok, V)>, k: Tok, i: int)
    requires
        0 <= i < m.len(),
        m[i].0 == k,
        forall|j: int| 0 <= j < i ==> m[j].0 != k,
    ensures
        assoc_remove(m, k) == m.take(i) + m.skip(i + 1),
    decreases i,
{
    lemma_assoc_remove_skip(m, k, i);
    assert(m.skip(i)[0] == m[i]);
    assert(assoc_remove(m.skip(i), k) == m.skip(i).drop_first());
    assert(m.take(i) + m.skip(i).drop_first() =~= m.take(i) + m.skip(i + 1)) by {
        assert(m.skip(i).drop_first() =~= m.skip(i + 1));
    }
}

/// Removing at a key that no pair holds changes nothing.
pub proof fn lemma_assoc_remove_absent<V>(m: Seq<(Tok, V)>, k: Tok)
    requires
        forall|j: int| 0 <= j < m.len() ==> m[j].0 != k,
    ensures
        assoc_remove(m, k) == m,
    decreases m.len(),
{
    lemma_assoc_remove_skip(m, k, m.len() as int);
    assert(m.skip(m.len() as int) =~= Seq::<(Tok, V)>::empty());
    assert(m.take(m.len() as int) =~= m);
    assert(m + Seq::<(Tok, V)>::empty() =~= m);
}

} // verus!
