//! A contract under emission: what the relations between its states say.
use crate::contract::{Contract, Global, imported};
use crate::ethabiencoder::decoded;
use crate::ir::{FunctionRef, IntOperand, Kind, Operand, PointerOperand, Step, value_defined};
use crate::machine::Machine;
use vstd::prelude::*;

verus! {

/// Where steps were taken, they come after all the earlier ones, and everything else of the
/// contract is as it was: what it is made for, its functions, its globals, its exports and
/// the size of its code.
pub proof fn steps_come_last<'a>(
    before: Contract<'a>,
    after: Contract<'a>,
    steps: Seq<Step<'a>>,
    k: int,
)
    requires
        after.took(before, steps),
    ensures
        after.steps@.len() == before.steps@.len() + steps.len(),
        0 <= k < before.steps@.len() ==> after.steps@[k] == before.steps@[k],
        0 <= k < steps.len() ==> after.steps@[before.steps@.len() + k] == steps[k],
        after.contract == before.contract,
        after.ns == before.ns,
        after.filename == before.filename,
        after.opt == before.opt,
        after.runtime == before.runtime,
        after.symbols == before.symbols,
        after.functions == before.functions,
        after.constructors == before.constructors,
        after.globals == before.globals,
        after.exports == before.exports,
        after.code_size == before.code_size,
{
}

/// Where one step was taken, that is what steps in a row are, for a row of one.
pub proof fn one_step_is_a_row<'a>(before: Contract<'a>, after: Contract<'a>, step: Step<'a>)
    requires
        after.took_one(before, step),
    ensures
        after.took(before, seq![step]),
{
    assert(before.steps@.push(step) =~= before.steps@ + seq![step]);
}

/// A contract that keeps its frame is made for the same thing and has the same functions and
/// exports.
pub proof fn frames_are_kept<'a>(before: Contract<'a>, after: Contract<'a>)
    requires
        after.same_frame(before),
    ensures
        after.contract == before.contract,
        after.ns == before.ns,
        after.filename == before.filename,
        after.opt == before.opt,
        after.runtime == before.runtime,
        after.functions == before.functions,
        after.constructors == before.constructors,
        after.exports == before.exports,
{
}

/// Added globals come after all the earlier ones, which are as they were.
pub proof fn globals_come_last<'a>(before: Contract<'a>, after: Contract<'a>, count: nat, i: int)
    requires
        after.globals_extend(before, count),
    ensures
        after.globals@.len() == before.globals@.len() + count,
        0 <= i < before.globals@.len() ==> after.globals@[i] == before.globals@[i],
{
    if 0 <= i < before.globals@.len() {
        assert(after.globals@.take(before.globals@.len() as int)[i] == after.globals@[i]);
    }
}

/// A global is known by its name, all of its bytes and whether it is constant.
pub proof fn globals_hold_all_bytes(
    global: Global,
    name: Seq<char>,
    data: Seq<u8>,
    constant: bool,
)
    ensures
        global.is(name, data, constant) <==> {
            &&& global.name@ == name
            &&& global.data@ == data
            &&& global.constant == constant
        },
{
}

/// Once they are emitted, the functions and constructors of the contract are all listed, each
/// at its number.
pub proof fn emitted_functions_are_complete<'a>(contract: Contract<'a>, i: int)
    requires
        contract.functions_emitted(),
    ensures
        contract.functions@.len() == contract.contract.functions@.len(),
        contract.constructors@.len() == contract.contract.constructors@.len(),
        0 <= i < contract.functions@.len() ==> contract.functions@[i] == FunctionRef::Function(
            i as usize,
        ),
        0 <= i < contract.constructors@.len() ==> contract.constructors@[i]
            == FunctionRef::Constructor(i as usize),
{
}

/// A well-formed contract calls no function by a name that its module does not hold, and
/// refers to no value that no earlier step yields.
pub proof fn well_formed_contracts_are_closed<'a>(contract: Contract<'a>, k: int, i: int)
    requires
        contract.wf(),
        0 <= k < contract.steps@.len(),
    ensures
        contract.steps@[k] matches Step::Call { callee, args, .. } ==> {
            &&& callee matches FunctionRef::Symbol(symbol) ==> contract.symbols@.contains(symbol)
            &&& callee matches FunctionRef::Function(f) ==> f < contract.functions@.len()
            &&& callee matches FunctionRef::Added(step) ==> step < k
                && contract.steps@[step as int] is AddFunction
            &&& callee matches FunctionRef::Initializer(step) ==> step < k
                && contract.steps@[step as int] is EmitInitializer
            &&& 0 <= i < args@.len() ==> match args@[i] {
                Operand::Int(IntOperand::Register { register, width }) => {
                    &&& register.step < k
                    &&& contract.steps@[register.step as int].yields(register.part as int) == Some(
                        Kind::Int(width),
                    )
                },
                Operand::Pointer(PointerOperand::Register { register, pointee }) => {
                    &&& register.step < k
                    &&& contract.steps@[register.step as int].yields(register.part as int) == Some(
                        Kind::Pointer(pointee),
                    )
                },
                _ => true,
            }
        },
{
    reveal(Contract::wf);
    assert(contract.accepts(k, contract.steps@[k]));
    if let Step::Call { args, .. } = contract.steps@[k] {
        if 0 <= i < args@.len() {
            assert(value_defined(contract.steps@, k, args@[i]));
        }
    }
}

/// Decoding yields one value for each parameter, in order: the `i`-th one is the `i`-th value
/// of the step.
pub proof fn decoded_values_are_in_order(m: Machine, step: int, count: nat, i: int)
    requires
        0 <= step <= usize::MAX,
        count <= usize::MAX,
    ensures
        decoded(step, count).len() == count,
        0 <= i < count ==> {
            &&& decoded(step, count)[i] is Other
            &&& m.value_of(decoded(step, count)[i]) == (m.registers)(step, i)
        },
{
}

/// A value that is handed in is the one that its step yields, with its kind.
pub proof fn imported_values_keep_their_kind(m: Machine, step: int, kind: Kind)
    requires
        0 <= step <= usize::MAX,
    ensures
        imported(step, kind).kind() == kind,
        m.value_of(imported(step, kind)) == (m.registers)(step, 0),
{
}

} // verus!
