use vstd::prelude::*;

use crate::language::Expr;
use crate::virtual_machine::register::vm::{
    initial_registers, run, step, sum_fits, Instruction, ValueModel, Values, REGISTER_COUNT,
};

verus! {

/// The register bound to `name`: the latest binding wins.
pub open spec fn lookup(env: Seq<Seq<char>>, name: Seq<char>) -> Option<usize>
    decreases env.len(),
{
    if env.len() == 0 {
        None
    } else if env.last() == name {
        Some((env.len() - 1) as usize)
    } else {
        lookup(env.drop_last(), name)
    }
}

/// The code for one expression, given the names bound so far (register `i`
/// holds `env[i]`), and the names bound after it.
///
/// A binding of an integer literal stores it in the next free register; a
/// sum of two bound names adds their registers. Nothing else emits code.
pub open spec fn emit_step(env: Seq<Seq<char>>, expr: Expr) -> (Seq<Seq<char>>, Seq<Instruction>) {
    match expr {
        Expr::Ident(name, value) => match *value {
            Expr::Int(n) => (
                env.push(name@),
                seq![Instruction::StoreLocal(env.len() as usize, Values::Int(n))],
            ),
            _ => (env, Seq::empty()),
        },
        Expr::Add(a, b) => match (*a, *b) {
            (Expr::Symbol(x), Expr::Symbol(y)) => match (lookup(env, x@), lookup(env, y@)) {
                (Some(i), Some(j)) => (env, seq![Instruction::Add(i, j)]),
                _ => (env, Seq::empty()),
            },
            _ => (env, Seq::empty()),
        },
        _ => (env, Seq::empty()),
    }
}

/// The names bound and the code emitted for `exprs`, in order.
pub open spec fn emit_all(exprs: Seq<Expr>) -> (Seq<Seq<char>>, Seq<Instruction>)
    decreases exprs.len(),
{
    if exprs.len() == 0 {
        (Seq::empty(), Seq::empty())
    } else {
        let (env, code) = emit_all(exprs.drop_last());
        let (env2, more) = emit_step(env, exprs.last());
        (env2, code + more)
    }
}

/// The names held by `env`, in register order.
pub open spec fn names(env: Seq<String>) -> Seq<Seq<char>> {
    env.map_values(|s: String| s@)
}

/// The register bound to `name` in `env`.
fn find(env: &Vec<String>, name: &String) -> (r: Option<usize>)
    ensures
        r == lookup(names(env@), name@),
{
    let mut i: usize = env.len();
    assert(env@.subrange(0, i as int) =~= env@);
    while i > 0
        invariant
            i <= env@.len(),
            lookup(names(env@), name@) == lookup(names(env@.subrange(0, i as int)), name@),
        decreases i,
    {
        let ghost prefix = names(env@.subrange(0, i as int));
        assert(prefix.drop_last() =~= names(env@.subrange(0, i - 1)));
        if env[i - 1] == *name {
            return Some(i - 1);
        }
        i = i - 1;
    }
    assert(names(env@.subrange(0, 0)) =~= Seq::<Seq<char>>::empty());
    None
}

/// Emits the code for `expr` after the names in `env`, updating `env`.
fn emit_into(expr: &Expr, env: &mut Vec<String>, out: &mut Vec<Instruction>)
    ensures
        names(final(env)@) == emit_step(names(old(env)@), *expr).0,
        final(out)@ == old(out)@ + emit_step(names(old(env)@), *expr).1,
{
    let ghost env0 = names(env@);
    let ghost out0 = out@;
    match expr {
        Expr::Ident(name, value) => match &**value {
            Expr::Int(n) => {
                let register = env.len();
                out.push(Instruction::StoreLocal(register, Values::Int(*n)));
                env.push(name.clone());
                assert(names(env@) =~= env0.push(name@));
                assert(out@ =~= out0 + seq![Instruction::StoreLocal(register, Values::Int(*n))]);
            },
            _ => {
                assert(out@ =~= out0 + Seq::<Instruction>::empty());
            },
        },
        Expr::Add(a, b) => match (&**a, &**b) {
            (Expr::Symbol(x), Expr::Symbol(y)) => {
                let i = find(env, x);
                let j = find(env, y);
                match (i, j) {
                    (Some(i), Some(j)) => {
                        out.push(Instruction::Add(i, j));
                        assert(out@ =~= out0 + seq![Instruction::Add(i, j)]);
                    },
                    _ => {
                        assert(out@ =~= out0 + Seq::<Instruction>::empty());
                    },
                }
            },
            _ => {
                assert(out@ =~= out0 + Seq::<Instruction>::empty());
            },
        },
        _ => {
            assert(out@ =~= out0 + Seq::<Instruction>::empty());
        },
    }
}

/// The code for one expression on its own.
pub fn emit(expr: &Expr) -> (r: Vec<Instruction>)
    ensures
        r@ == emit_step(Seq::empty(), *expr).1,
{
    let mut env: Vec<String> = Vec::new();
    let mut out: Vec<Instruction> = Vec::new();
    assert(names(env@) =~= Seq::<Seq<char>>::empty());
    emit_into(expr, &mut env, &mut out);
    assert(out@ =~= emit_step(Seq::empty(), *expr).1);
    out
}

/// The code for a sequence of expressions: later ones see the names that
/// earlier ones bind.
pub fn emit_body(expr: &[Expr]) -> (r: Vec<Instruction>)
    ensures
        r@ == emit_all(expr@).1,
{
    let mut env: Vec<String> = Vec::new();
    let mut out: Vec<Instruction> = Vec::new();
    let mut k: usize = 0;
    assert(expr@.subrange(0, 0) =~= Seq::<Expr>::empty());
    while k < expr.len()
        invariant
            k <= expr@.len(),
            emit_all(expr@.subrange(0, k as int)) == (names(env@), out@),
        decreases expr@.len() - k,
    {
        assert(expr@.subrange(0, k + 1).drop_last() =~= expr@.subrange(0, k as int));
        emit_into(&expr[k], &mut env, &mut out);
        k = k + 1;
    }
    assert(expr@.subrange(0, expr@.len() as int) =~= expr@);
    out
}

/// The integer literals bound by `exprs`, in register order.
pub open spec fn literals(exprs: Seq<Expr>) -> Seq<i32>
    decreases exprs.len(),
{
    if exprs.len() == 0 {
        Seq::empty()
    } else {
        literals(exprs.drop_last()) + match exprs.last() {
            Expr::Ident(_, value) => match *value {
                Expr::Int(n) => seq![n],
                _ => Seq::empty(),
            },
            _ => Seq::empty(),
        }
    }
}

/// The registers of a machine whose first registers hold `vals` and whose
/// others are `Null`.
pub open spec fn registers_holding(vals: Seq<i32>) -> Seq<ValueModel> {
    Seq::new(
        REGISTER_COUNT as nat,
        |i: int|
            if i < vals.len() {
                ValueModel::Int(vals[i])
            } else {
                ValueModel::Null
            },
    )
}

/// Every addition in the code emitted for `exprs` adds two literals whose
/// sum fits in an `i32`.
pub open spec fn additions_fit(exprs: Seq<Expr>) -> bool {
    let code = emit_all(exprs).1;
    let vals = literals(exprs);
    forall|k: int|
        0 <= k < code.len() ==> (#[trigger] code[k] matches Instruction::Add(i, j) ==> (i
            < vals.len() && j < vals.len() ==> sum_fits(vals[i as int], vals[j as int])))
}

proof fn lemma_lookup_in_range(env: Seq<Seq<char>>, name: Seq<char>)
    ensures
        lookup(env, name) matches Some(i) ==> i < env.len(),
    decreases env.len(),
{
    if env.len() > 0 && env.last() != name {
        lemma_lookup_in_range(env.drop_last(), name);
    }
}

proof fn lemma_run_append(regs: Seq<ValueModel>, code: Seq<Instruction>, more: Seq<Instruction>)
    requires
        more.len() <= 1,
    ensures
        run(regs, code + more) == if more.len() == 0 {
            run(regs, code)
        } else {
            match run(regs, code) {
                Some(before) => step(before, more[0]),
                None => None,
            }
        },
{
    if more.len() == 0 {
        assert(code + more =~= code);
    } else {
        assert((code + more).drop_last() =~= code);
    }
}

/// The code emitted for `exprs` binds one register per literal: the names and
/// the literals line up.
pub proof fn lemma_literals_match_names(exprs: Seq<Expr>)
    ensures
        literals(exprs).len() == emit_all(exprs).0.len(),
    decreases exprs.len(),
{
    if exprs.len() > 0 {
        lemma_literals_match_names(exprs.drop_last());
    }
}

/// The machine runs the code that `emit_body` emits without a panic, as long
/// as it binds at most as many names as there are registers and its sums fit
/// in an `i32`; at the end register `i` holds the `i`-th bound literal.
pub proof fn law_emitted_code_runs(exprs: Seq<Expr>)
    requires
        literals(exprs).len() <= REGISTER_COUNT,
        additions_fit(exprs),
    ensures
        run(initial_registers(), emit_all(exprs).1) == Some(registers_holding(literals(exprs))),
    decreases exprs.len(),
{
    lemma_literals_match_names(exprs);
    if exprs.len() == 0 {
        assert(registers_holding(Seq::empty()) =~= initial_registers());
    } else {
        let prefix = exprs.drop_last();
        let (env, code) = emit_all(prefix);
        let (env2, more) = emit_step(env, exprs.last());
        let vals = literals(prefix);
        let all_vals = literals(exprs);
        lemma_literals_match_names(prefix);
        assert(vals.is_prefix_of(all_vals));
        assert(emit_all(exprs).1 == code + more);
        assert forall|k: int| 0 <= k < code.len() implies (#[trigger] code[k] matches Instruction::Add(
            i,
            j,
        ) ==> (i < vals.len() && j < vals.len() ==> sum_fits(vals[i as int], vals[j as int]))) by {
            assert((code + more)[k] == code[k]);
        }
        law_emitted_code_runs(prefix);
        lemma_run_append(initial_registers(), code, more);
        match exprs.last() {
            Expr::Ident(name, value) => match *value {
                Expr::Int(n) => {
                    assert(registers_holding(vals).update(vals.len() as int, ValueModel::Int(n))
                        =~= registers_holding(all_vals));
                },
                _ => {
                    assert(all_vals =~= vals);
                },
            },
            Expr::Add(a, b) => {
                assert(all_vals =~= vals);
                match (*a, *b) {
                    (Expr::Symbol(x), Expr::Symbol(y)) => {
                        lemma_lookup_in_range(env, x@);
                        lemma_lookup_in_range(env, y@);
                        if more.len() > 0 {
                            assert((code + more)[code.len() as int] == more[0]);
                        }
                    },
                    _ => {},
                }
            },
            _ => {
                assert(all_vals =~= vals);
            },
        }
    }
}

/// Emitting more expressions only appends code: the code for `a` is a
/// prefix of the code for `a` followed by `b`, and likewise the names bound.
pub proof fn law_emit_extends(a: Seq<Expr>, b: Seq<Expr>)
    ensures
        emit_all(a).1.is_prefix_of(emit_all(a + b).1),
        emit_all(a).0.is_prefix_of(emit_all(a + b).0),
    decreases b.len(),
{
    if b.len() == 0 {
        assert(a + b =~= a);
    } else {
        law_emit_extends(a, b.drop_last());
        assert((a + b).drop_last() =~= a + b.drop_last());
        assert((a + b).last() == b.last());
    }
}

/// `lookup` finds the latest binding of exactly the given name (among at
/// most as many names as registers can be numbered): the register
/// it gives holds that name and no later register does; where it finds
/// none, no register holds the name.
pub proof fn law_lookup_finds_latest_binding(env: Seq<Seq<char>>, name: Seq<char>)
    requires
        env.len() <= usize::MAX,
    ensures
        lookup(env, name) matches Some(i) ==> {
            &&& i < env.len()
            &&& env[i as int] == name
            &&& forall|k: int| i < k < env.len() ==> env[k] != name
        },
        lookup(env, name) is None ==> forall|k: int| 0 <= k < env.len() ==> env[k] != name,
    decreases env.len(),
{
    if env.len() > 0 && env.last() != name {
        law_lookup_finds_latest_binding(env.drop_last(), name);
        let prefix = env.drop_last();
        assert(env[env.len() - 1] != name);
        if let Some(i) = lookup(env, name) {
            assert(lookup(prefix, name) == Some(i));
            assert(env[i as int] == prefix[i as int]);
            assert forall|k: int| i < k < env.len() implies env[k] != name by {
                if k < env.len() - 1 {
                    assert(env[k] == prefix[k]);
                }
            }
        } else {
            assert forall|k: int| 0 <= k < env.len() implies env[k] != name by {
                if k < env.len() - 1 {
                    assert(env[k] == prefix[k]);
                }
            }
        }
    }
}

/// A sum of two names emits one addition exactly where both names are
/// bound; its registers are those of the latest bindings of exactly those
/// names, and it binds nothing.
pub proof fn law_emit_add_uses_latest_bindings(env: Seq<Seq<char>>, x: String, y: String)
    requires
        env.len() <= usize::MAX,
    ensures
        ({
            let e = Expr::Add(Box::new(Expr::Symbol(x)), Box::new(Expr::Symbol(y)));
            &&& emit_step(env, e).0 == env
            &&& (emit_step(env, e).1.len() == 1 <==> (env.contains(x@) && env.contains(y@)))
            &&& (emit_step(env, e).1.len() != 1 ==> emit_step(env, e).1.len() == 0)
            &&& emit_step(env, e).1.len() == 1 ==> {
                &&& emit_step(env, e).1[0] matches Instruction::Add(i, j)
                &&& i < env.len() && env[i as int] == x@
                &&& j < env.len() && env[j as int] == y@
                &&& forall|k: int| i < k < env.len() ==> env[k] != x@
                &&& forall|k: int| j < k < env.len() ==> env[k] != y@
            }
        }),
{
    law_lookup_finds_latest_binding(env, x@);
    law_lookup_finds_latest_binding(env, y@);
    if let Some(i) = lookup(env, x@) {
        assert(env[i as int] == x@);
    }
    if let Some(j) = lookup(env, y@) {
        assert(env[j as int] == y@);
    }
}

/// A binding of an integer literal stores it in the next free register, one
/// past the names bound so far, and binds its name there.
pub proof fn law_emit_binding_uses_next_register(env: Seq<Seq<char>>, name: String, n: i32)
    ensures
        ({
            let e = Expr::Ident(name, Box::new(Expr::Int(n)));
            &&& emit_step(env, e).0 == env.push(name@)
            &&& emit_step(env, e).1 == seq![Instruction::StoreLocal(env.len() as usize, Values::Int(n))]
        }),
{
}

} // verus!
