use std::collections::HashMap;

use vstd::prelude::*;

verus! {

/// A value held in a register.
#[derive(Debug, Clone, PartialEq, Default)]
pub enum Values {
    Int(i32),
    Bool(bool),
    String(String),
    Register(usize),
    #[default]
    Null,
}

/// The mathematical model of a `Values`.
pub enum ValueModel {
    Int(i32),
    Bool(bool),
    Text(Seq<char>),
    Register(usize),
    Null,
}

impl View for Values {
    type V = ValueModel;

    open spec fn view(&self) -> ValueModel {
        match self {
            Values::Int(n) => ValueModel::Int(*n),
            Values::Bool(b) => ValueModel::Bool(*b),
            Values::String(s) => ValueModel::Text(s@),
            Values::Register(r) => ValueModel::Register(*r),
            Values::Null => ValueModel::Null,
        }
    }
}

impl Values {
    /// A copy of this value.
    pub fn copy(&self) -> (r: Values)
        ensures
            r@ == self@,
    {
        match self {
            Values::Int(n) => Values::Int(*n),
            Values::Bool(b) => Values::Bool(*b),
            Values::String(s) => Values::String(s.clone()),
            Values::Register(r) => Values::Register(*r),
            Values::Null => Values::Null,
        }
    }
}

/// The types of values.
#[derive(Debug, Clone, PartialEq)]
pub enum Types {
    Int,
    Float,
    Bool,
    String,
}

/// An instruction of the machine.
#[derive(Debug, Clone, PartialEq)]
pub enum Instruction {
    Nop,
    StoreLocal(usize, Values),
    LoadLocal(usize),
    Add(usize, usize),
    Sub(usize, usize),
    Mul(usize, usize),
    Div(usize, usize),
    Mod,
    Equal,
    NotEqual,
    Gt,
    Gte,
    Lt,
    Lte,
    And,
    Or,
    Ret,
    JumpEqual(usize),
    JumpNotEqual(usize),
    JumpUnconditional(usize),
    Call(String),
}

/// A function: the types of its parameters and its code.
#[derive(Debug)]
pub struct Function {
    pub parameters: Vec<Types>,
    pub instructions: Vec<Instruction>,
}

impl Function {
    /// A function with the given parameters and code.
    pub fn new(parameters: Vec<Types>, instructions: Vec<Instruction>) -> (r: Function)
        ensures
            r.parameters == parameters,
            r.instructions == instructions,
    {
        Function { parameters, instructions }
    }
}

/// A program: functions by name.
pub struct Program {
    functions: HashMap<&'static str, Function>,
}

/// The number of registers a function runs with.
pub const REGISTER_COUNT: usize = 100;

/// The registers at the start of a run: all `Null`.
pub open spec fn initial_registers() -> Seq<ValueModel> {
    Seq::new(REGISTER_COUNT as nat, |i: int| ValueModel::Null)
}

/// `a + b` fits in an `i32`.
pub open spec fn sum_fits(a: i32, b: i32) -> bool {
    i32::MIN <= a + b <= i32::MAX
}

/// The registers after one instruction, or `None` where it panics: a register
/// index out of range, or an addition of anything but two integers, or one
/// that overflows.
pub open spec fn step(regs: Seq<ValueModel>, instruction: Instruction) -> Option<Seq<ValueModel>> {
    match instruction {
        Instruction::StoreLocal(index, value) => if index < regs.len() {
            Some(regs.update(index as int, value@))
        } else {
            None
        },
        Instruction::Add(left, right) => if left < regs.len() && right < regs.len() {
            match (regs[left as int], regs[right as int]) {
                (ValueModel::Int(a), ValueModel::Int(b)) => if sum_fits(a, b) {
                    Some(regs)
                } else {
                    None
                },
                _ => None,
            }
        } else {
            None
        },
        _ => Some(regs),
    }
}

/// The registers after running `instructions` in order from `regs`, or
/// `None` where one of them panics.
pub open spec fn run(regs: Seq<ValueModel>, instructions: Seq<Instruction>) -> Option<
    Seq<ValueModel>,
>
    decreases instructions.len(),
{
    if instructions.len() == 0 {
        Some(regs)
    } else {
        match run(regs, instructions.drop_last()) {
            Some(before) => step(before, instructions.last()),
            None => None,
        }
    }
}

/// The sum of two integer values.
fn add(left: &Values, right: &Values) -> (r: Values)
    requires
        left@ matches ValueModel::Int(a) && right@ matches ValueModel::Int(b) && sum_fits(a, b),
    ensures
        left@ matches ValueModel::Int(a) && right@ matches ValueModel::Int(b) && r@
            == ValueModel::Int((a + b) as i32),
{
    match (left, right) {
        (Values::Int(left), Values::Int(right)) => Values::Int(*left + *right),
        _ => Values::Null,
    }
}

impl Program {
    /// A program of the given functions.
    pub fn new(functions: HashMap<&'static str, Function>) -> (r: Program)
        ensures
            r.functions() == functions@,
    {
        Program { functions }
    }

    /// The functions of this program, by name.
    pub closed spec fn functions(&self) -> Map<&'static str, Function> {
        self.functions@
    }

    /// Runs `function` on 100 `Null` registers: each `StoreLocal` writes a
    /// register, each `Add` adds two integer registers (and drops the sum);
    /// the other instructions do nothing. No value is returned.
    pub fn eval(&self, function: &Function, params: &[Values]) -> (r: Option<Values>)
        requires
            run(initial_registers(), function.instructions@) is Some,
        ensures
            r is None,
    {
        let mut registers: Vec<Values> = Vec::new();
        while registers.len() < REGISTER_COUNT
            invariant
                registers.len() <= REGISTER_COUNT,
                forall|i: int| 0 <= i < registers.len() ==> registers@[i]@ == ValueModel::Null,
            decreases REGISTER_COUNT - registers.len(),
        {
            registers.push(Values::Null);
        }
        let ghost code = function.instructions@;
        assert(registers@.map_values(|v: Values| v@) =~= initial_registers());
        let mut k: usize = 0;
        while k < function.instructions.len()
            invariant
                code == function.instructions@,
                k <= code.len(),
                run(initial_registers(), code) is Some,
                run(initial_registers(), code.subrange(0, k as int)) == Some(
                    registers@.map_values(|v: Values| v@),
                ),
            decreases code.len() - k,
        {
            proof {
                lemma_run_prefix_defined(initial_registers(), code, (k + 1) as int);
                assert(code.subrange(0, k + 1).drop_last() =~= code.subrange(0, k as int));
            }
            let ghost before = registers@.map_values(|v: Values| v@);
            match &function.instructions[k] {
                Instruction::StoreLocal(index, value) => {
                    registers.set(*index, value.copy());
                    assert(registers@.map_values(|v: Values| v@) =~= before.update(
                        *index as int,
                        value@,
                    ));
                },
                Instruction::Add(left, right) => {
                    let left = registers[*left].copy();
                    let right = registers[*right].copy();
                    self::add(&left, &right);
                },
                _ => {},
            }
            k = k + 1;
        }
        None
    }
}

/// Where a run of `instructions` does not panic, neither does a run of any
/// prefix of them.
pub proof fn lemma_run_prefix_defined(regs: Seq<ValueModel>, instructions: Seq<Instruction>, k: int)
    requires
        0 <= k <= instructions.len(),
        run(regs, instructions) is Some,
    ensures
        run(regs, instructions.subrange(0, k)) is Some,
    decreases instructions.len(),
{
    if k < instructions.len() {
        assert(instructions.drop_last() =~= instructions.subrange(0, instructions.len() - 1));
        lemma_run_prefix_defined(regs, instructions.drop_last(), k);
        assert(instructions.drop_last().subrange(0, k) =~= instructions.subrange(0, k));
    } else {
        assert(instructions.subrange(0, k) =~= instructions);
    }
}

} // verus!
