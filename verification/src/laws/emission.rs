//! Emission: what is carried out on an LLVM module means what the steps say, and a module can
//! call the host functions that it declares.
use crate::contract::Contract;
use crate::emitter::{EmitError, Emitter, asks, builds, count_builds, count_declares, declares, fits};
use crate::ir::{
    FunctionRef, IntOperand, Kind, Operand, Pointee, PointerOperand, Step, Symbol,
    int_defined, pointer_defined, value_defined,
};
use crate::laws::declarations::declares_host;
use crate::llvm::{self, BuilderCall, ModuleCall};
use crate::machine::Machine;
use inkwell::values::BasicValueEnum;
use vstd::arithmetic::power2::pow2;
use vstd::prelude::*;

verus! {

/// A call of a host function that an emitter has declared is there to be called and returns
/// what its callers need: it fails only where the builder has no position.
pub proof fn declared_functions_can_be_called<'ctx, 'a>(
    emitter: Emitter<'ctx>,
    steps: Seq<Step<'a>>,
    from: int,
    calls: int,
    changes: int,
    declaration: int,
    symbol: Symbol,
    step: Step<'a>,
    error: EmitError,
)
    requires
        from <= declaration < emitter.values@.len(),
        emitter.did(steps, from, calls, changes),
        emitter.holds_added(steps, from),
        declares_host(steps[declaration], symbol),
        step matches Step::Call { callee, .. } && callee == FunctionRef::Symbol(symbol),
        emitter.blocked(step, error),
    ensures
        error is Unpositioned,
{
    assert(emitter.did_step(steps, from, calls, changes, declaration));
    assert(steps[declaration] is AddFunction);
}

/// What LLVM values stand for: integers and addresses.
pub type Meaning<'ctx> = spec_fn(BasicValueEnum<'ctx>) -> int;

/// The values stand for what a machine has: constants for their numbers, null pointers for
/// address zero, and what the steps yielded for what they yielded on the machine.
pub open spec fn stands_for<'ctx>(
    emitter: Emitter<'ctx>,
    m: Machine,
    meaning: Meaning<'ctx>,
) -> bool {
    &&& forall|value: BasicValueEnum<'ctx>, width: u32, number: u64| #[trigger]
        llvm::is_constant(value, width, number) ==> meaning(value) == number as int % pow2(
            width as nat,
        ) as int
    &&& forall|value: BasicValueEnum<'ctx>| #[trigger] llvm::is_null(value) ==> meaning(value) == 0
    &&& forall|step: int, part: int|
        0 <= step < emitter.values@.len() && 0 <= part < emitter.values@[step]@.len() ==> meaning(
            #[trigger] emitter.values@[step]@[part],
        ) == (m.registers)(step, part)
}

/// The step is a call on the builder: it adds an instruction or says where to go on.
pub open spec fn is_for_builder(step: Step) -> bool {
    match step {
        Step::PositionAtEnd { .. } | Step::Call { .. } | Step::CallDecoded { .. }
        | Step::IntAdd { .. } | Step::IntSub { .. } | Step::IntUnsignedDiv { .. }
        | Step::IntEqual { .. } | Step::PointerCast { .. } | Step::PointerCastLike { .. }
        | Step::Alloca { .. } | Step::ArrayAlloca { .. } | Step::Load { .. } | Step::Store { .. }
        | Step::CondBranch { .. } | Step::Return { .. } | Step::Unreachable => true,
        _ => false,
    }
}

/// The step adds a function, marks one, or appends a block.
pub open spec fn is_for_functions(step: Step) -> bool {
    step is AddFunction || step is SetNoReturn || step is AppendBlock
}

/// How many of the steps from `from` up to `to` are calls on the builder.
pub open spec fn instructions(steps: Seq<Step>, from: int, to: int) -> nat
    decreases to - from,
{
    if to <= from {
        0
    } else {
        instructions(steps, from, to - 1) + if is_for_builder(steps[to - 1]) {
            1nat
        } else {
            0nat
        }
    }
}

/// How many of the steps from `from` up to `to` add a function, mark one, or append a block.
pub open spec fn changes_of(steps: Seq<Step>, from: int, to: int) -> nat
    decreases to - from,
{
    if to <= from {
        0
    } else {
        changes_of(steps, from, to - 1) + if is_for_functions(steps[to - 1]) {
            1nat
        } else {
            0nat
        }
    }
}

/// The call on the builder is of the step's kind, its operands stand for what the step's
/// operands are on the machine, its widths are the step's, and its result is what the step
/// yielded.
pub open spec fn means_the_same<'ctx, 'a>(
    emitter: Emitter<'ctx>,
    m: Machine,
    meaning: Meaning<'ctx>,
    k: int,
    step: Step<'a>,
    call: BuilderCall<'ctx>,
) -> bool {
    let yielded = emitter.values@[k]@;
    match step {
        Step::PositionAtEnd { block } => {
            &&& call matches BuilderCall::PositionAtEnd { block: b }
            &&& emitter.blocks@[block.step as int] == Some(b)
        },
        Step::Call { callee, args, name } => {
            &&& call matches BuilderCall::Call { callee: f, args: a, name: n, returned }
            &&& emitter.function(callee) == Some(f)
            &&& a.len() == args@.len()
            &&& forall|i: int|
                0 <= i < a.len() ==> meaning(#[trigger] a[i]) == m.value_of(args@[i])
            &&& n == name@
            &&& yielded.len() > 0 ==> returned == Some(yielded[0])
        },
        Step::CallDecoded { callee, decode } => {
            &&& call matches BuilderCall::Call { callee: f, args: a, .. }
            &&& emitter.function(callee) == Some(f)
            &&& a.len() == emitter.values@[decode as int]@.len()
            &&& forall|i: int|
                0 <= i < a.len() ==> meaning(#[trigger] a[i]) == (m.registers)(decode as int, i)
        },
        Step::IntAdd { lhs, rhs } => {
            &&& call matches BuilderCall::IntAdd { lhs: l, rhs: r, result }
            &&& meaning(l) == m.int_of(lhs) && meaning(r) == m.int_of(rhs)
            &&& yielded.len() == 1 && result == yielded[0]
        },
        Step::IntSub { lhs, rhs } => {
            &&& call matches BuilderCall::IntSub { lhs: l, rhs: r, result }
            &&& meaning(l) == m.int_of(lhs) && meaning(r) == m.int_of(rhs)
            &&& yielded.len() == 1 && result == yielded[0]
        },
        Step::IntUnsignedDiv { lhs, rhs } => {
            &&& call matches BuilderCall::IntUnsignedDiv { lhs: l, rhs: r, result }
            &&& meaning(l) == m.int_of(lhs) && meaning(r) == m.int_of(rhs)
            &&& yielded.len() == 1 && result == yielded[0]
        },
        Step::IntEqual { lhs, rhs, .. } => {
            &&& call matches BuilderCall::IntEqual { lhs: l, rhs: r, result, .. }
            &&& meaning(l) == m.int_of(lhs) && meaning(r) == m.int_of(rhs)
            &&& yielded.len() == 1 && result == yielded[0]
        },
        Step::PointerCast { pointer, width, .. } => {
            &&& call matches BuilderCall::PointerCast { pointer: p, width: w, result, .. }
            &&& meaning(p) == m.address_of(pointer) && w == width
            &&& yielded.len() == 1 && result == yielded[0]
        },
        Step::PointerCastLike { pointer, like, .. } => {
            &&& call matches BuilderCall::PointerCastLike { pointer: p, like: l, result, .. }
            &&& meaning(p) == m.address_of(pointer) && meaning(l) == m.address_of(like)
            &&& Kind::Pointer(like.spec_pointee()).admits(llvm::value_kind(l))
            &&& yielded.len() == 1 && result == yielded[0]
        },
        Step::Alloca { width, .. } => {
            &&& call matches BuilderCall::Alloca { width: w, result, .. }
            &&& w == width
            &&& yielded.len() == 1 && result == yielded[0]
        },
        Step::ArrayAlloca { width, count, .. } => {
            &&& call matches BuilderCall::ArrayAlloca { width: w, count: c, result, .. }
            &&& w == width && meaning(c) == m.int_of(count)
            &&& yielded.len() == 1 && result == yielded[0]
        },
        Step::Load { pointer, width, .. } => {
            &&& call matches BuilderCall::Load { pointer: p, result, .. }
            &&& meaning(p) == m.address_of(pointer)
            &&& yielded.len() == 1 && result == yielded[0]
            &&& llvm::value_kind(result) == Kind::Int(width)
        },
        Step::Store { pointer, value } => {
            &&& call matches BuilderCall::Store { pointer: p, value: v }
            &&& meaning(p) == m.address_of(pointer) && meaning(v) == m.int_of(value)
            &&& llvm::value_kind(v) == Kind::Int(value.spec_width())
        },
        Step::CondBranch { condition, then_block, else_block } => {
            &&& call matches BuilderCall::CondBranch { condition: c, then_block: t, else_block: e }
            &&& meaning(c) == m.int_of(condition)
            &&& emitter.blocks@[then_block.step as int] == Some(t)
            &&& emitter.blocks@[else_block.step as int] == Some(e)
        },
        Step::Return { value } => {
            &&& call matches BuilderCall::Return { value: v }
            &&& meaning(v) == m.int_of(value)
            &&& llvm::value_kind(v) == Kind::Int(value.spec_width())
        },
        Step::Unreachable => call is Unreachable,
        _ => false,
    }
}

/// The call on the module is of the step's kind: it adds the function with that name, result
/// and parameters, marks the function that was added, or appends a block to the function.
pub open spec fn changes_the_same<'ctx, 'a>(
    emitter: Emitter<'ctx>,
    k: int,
    step: Step<'a>,
    call: ModuleCall<'ctx>,
) -> bool {
    match step {
        Step::AddFunction { symbol, ret, params, external } => {
            &&& call matches ModuleCall::AddFunction {
                name,
                ret: r,
                params: p,
                external: e,
                result,
            }
            &&& name == symbol.spec_name()@
            &&& e == external
            &&& r is Some <==> ret is Some
            &&& r matches Some(ty) ==> Some(llvm::type_kind(ty)) == ret
            &&& p.len() == params@.len()
            &&& forall|i: int|
                0 <= i < p.len() ==> llvm::type_kind(#[trigger] p[i]) == params@[i]
            &&& emitter.added@[k] == Some(result)
        },
        Step::SetNoReturn { declaration } => {
            &&& call matches ModuleCall::NoReturn { function }
            &&& emitter.added@[declaration as int] == Some(function)
        },
        Step::AppendBlock { function, name } => {
            &&& call matches ModuleCall::AppendBlock { function: f, name: n, result }
            &&& emitter.function(function) == Some(f)
            &&& n == name@
            &&& emitter.blocks@[k] == Some(result)
        },
        _ => false,
    }
}

/// The steps are counted alike.
proof fn lemma_counts(steps: Seq<Step>, from: int, to: int)
    ensures
        count_builds(steps, from, to) == instructions(steps, from, to),
        count_declares(steps, from, to) == changes_of(steps, from, to),
    decreases to - from,
{
    if to > from {
        lemma_counts(steps, from, to - 1);
    }
}

/// An integer that earlier steps define stands for what it is.
pub proof fn integers_stand_for_themselves<'ctx, 'a>(
    emitter: Emitter<'ctx>,
    m: Machine,
    meaning: Meaning<'ctx>,
    steps: Seq<Step<'a>>,
    n: int,
    operand: IntOperand,
    value: BasicValueEnum<'ctx>,
)
    requires
        stands_for(emitter, m, meaning),
        emitter.tracks(steps),
        n <= emitter.values@.len(),
        int_defined(steps, n, operand),
        emitter.is_int(operand, value),
    ensures
        meaning(value) == m.int_of(operand),
        llvm::value_kind(value) == Kind::Int(operand.spec_width()),
{
    if let IntOperand::Register { register, .. } = operand {
        assert(fits(steps[register.step as int], emitter.values@[register.step as int]@));
        assert(steps[register.step as int].yields(register.part as int) is Some);
        assert(value == emitter.values@[register.step as int]@[register.part as int]);
    }
}

/// A pointer that earlier steps define stands for its address.
pub proof fn pointers_stand_for_addresses<'ctx, 'a>(
    emitter: Emitter<'ctx>,
    m: Machine,
    meaning: Meaning<'ctx>,
    steps: Seq<Step<'a>>,
    n: int,
    operand: PointerOperand,
    value: BasicValueEnum<'ctx>,
)
    requires
        stands_for(emitter, m, meaning),
        emitter.tracks(steps),
        n <= emitter.values@.len(),
        pointer_defined(steps, n, operand),
        emitter.is_pointer(operand, value),
    ensures
        meaning(value) == m.address_of(operand),
        Kind::Pointer(operand.spec_pointee()).admits(llvm::value_kind(value)),
{
    if let PointerOperand::Register { register, .. } = operand {
        assert(fits(steps[register.step as int], emitter.values@[register.step as int]@));
        assert(steps[register.step as int].yields(register.part as int) is Some);
        assert(value == emitter.values@[register.step as int]@[register.part as int]);
    }
}

/// A value that earlier steps define stands for what it is.
pub proof fn operands_stand_for_values<'ctx, 'a>(
    emitter: Emitter<'ctx>,
    m: Machine,
    meaning: Meaning<'ctx>,
    steps: Seq<Step<'a>>,
    n: int,
    operand: Operand,
    value: BasicValueEnum<'ctx>,
)
    requires
        stands_for(emitter, m, meaning),
        emitter.tracks(steps),
        n <= emitter.values@.len(),
        value_defined(steps, n, operand),
        emitter.is_operand(operand, value),
    ensures
        meaning(value) == m.value_of(operand),
{
    match operand {
        Operand::Int(v) => {
            integers_stand_for_themselves(emitter, m, meaning, steps, n, v, value);
        },
        Operand::Pointer(v) => {
            pointers_stand_for_addresses(emitter, m, meaning, steps, n, v, value);
        },
        Operand::Other(register) => {
            assert(fits(steps[register.step as int], emitter.values@[register.step as int]@));
            assert(steps[register.step as int].yields(register.part as int) is Some);
            assert(value == emitter.values@[register.step as int]@[register.part as int]);
        },
    }
}

/// Every step that was carried out since step number `from` is for the builder or for the
/// functions of the module. The calls on the builder are, in the order of the steps, one for
/// each of its steps, and each means what its step says on any machine. The calls on the
/// module are, in the order of the steps, one for each of the others, and each does what its
/// step says.
#[verifier::rlimit(60)]
pub proof fn emission_keeps_the_meaning<'ctx, 'a>(
    emitter: Emitter<'ctx>,
    contract: Contract<'a>,
    from: int,
    calls: int,
    changes: int,
    k: int,
    m: Machine,
    meaning: Meaning<'ctx>,
)
    requires
        contract.wf(),
        emitter.tracks(contract.steps@),
        emitter.did(contract.steps@, from, calls, changes),
        0 <= from <= k < emitter.values@.len(),
        stands_for(emitter, m, meaning),
    ensures
        ({
            let step = contract.steps@[k];
            let call = calls + instructions(contract.steps@, from, k);
            let change = changes + changes_of(contract.steps@, from, k);
            &&& is_for_builder(step) || is_for_functions(step)
            &&& is_for_builder(step) ==> {
                &&& 0 <= call < llvm::builder_calls(emitter.builder).len()
                &&& means_the_same(
                    emitter,
                    m,
                    meaning,
                    k,
                    step,
                    llvm::builder_calls(emitter.builder)[call],
                )
            }
            &&& is_for_functions(step) ==> {
                &&& 0 <= change < llvm::module_calls(emitter.module).len()
                &&& changes_the_same(emitter, k, step, llvm::module_calls(emitter.module)[change])
            }
        }),
{
    let steps = contract.steps@;
    let step = steps[k];
    lemma_counts(steps, from, k);
    assert(emitter.did_step(steps, from, calls, changes, k));
    assert(contract.accepts(k, step)) by {
        reveal(Contract::wf);
    }
    let index = calls + instructions(steps, from, k);
    let yielded = emitter.values@[k]@;
    assert(fits(step, yielded));
    assert(step.yields(0) is Some ==> yielded.len() > 0);
    assert(step.yields(yielded.len() as int) is None);
    if yielded.len() > 1 {
        assert(step.yields(1) is Some);
    }
    if is_for_builder(step) {
        let call = llvm::builder_calls(emitter.builder)[index];
        assert(emitter.carried_out(step, yielded, call));
        lemma_call_means(emitter, contract, k, m, meaning, call);
    }
}

/// A call that carries a step out means what the step says.
#[verifier::rlimit(60)]
proof fn lemma_call_means<'ctx, 'a>(
    emitter: Emitter<'ctx>,
    contract: Contract<'a>,
    k: int,
    m: Machine,
    meaning: Meaning<'ctx>,
    call: BuilderCall<'ctx>,
)
    requires
        emitter.tracks(contract.steps@),
        0 <= k < emitter.values@.len(),
        contract.accepts(k, contract.steps@[k]),
        stands_for(emitter, m, meaning),
        is_for_builder(contract.steps@[k]),
        emitter.carried_out(contract.steps@[k], emitter.values@[k]@, call),
        contract.steps@[k].yields(0) is Some ==> emitter.values@[k]@.len() == 1,
        contract.steps@[k].yields(0) is None ==> emitter.values@[k]@.len() == 0,
        fits(contract.steps@[k], emitter.values@[k]@),
    ensures
        means_the_same(emitter, m, meaning, k, contract.steps@[k], call),
{
    let steps = contract.steps@;
    match steps[k] {
        Step::Call { args, .. } => {
            let a = call->Call_args;
            assert forall|i: int| 0 <= i < a.len() implies meaning(#[trigger] a[i]) == m.value_of(
                args@[i],
            ) by {
                assert(emitter.is_operand(args@[i], a[i]));
                assert(value_defined(steps, k, args@[i]));
                operands_stand_for_values(emitter, m, meaning, steps, k, args@[i], a[i]);
            }
        },
        Step::CallDecoded { decode, .. } => {},
        Step::IntAdd { lhs, rhs } => {
            integers_stand_for_themselves(emitter, m, meaning, steps, k, lhs, call->IntAdd_lhs);
            integers_stand_for_themselves(emitter, m, meaning, steps, k, rhs, call->IntAdd_rhs);
        },
        Step::IntSub { lhs, rhs } => {
            integers_stand_for_themselves(emitter, m, meaning, steps, k, lhs, call->IntSub_lhs);
            integers_stand_for_themselves(emitter, m, meaning, steps, k, rhs, call->IntSub_rhs);
        },
        Step::IntUnsignedDiv { lhs, rhs } => {
            integers_stand_for_themselves(emitter, m, meaning, steps, k, lhs, call->IntUnsignedDiv_lhs);
            integers_stand_for_themselves(emitter, m, meaning, steps, k, rhs, call->IntUnsignedDiv_rhs);
        },
        Step::IntEqual { lhs, rhs, .. } => {
            integers_stand_for_themselves(emitter, m, meaning, steps, k, lhs, call->IntEqual_lhs);
            integers_stand_for_themselves(emitter, m, meaning, steps, k, rhs, call->IntEqual_rhs);
        },
        Step::PointerCast { pointer, .. } => {
            pointers_stand_for_addresses(
                emitter,
                m,
                meaning,
                steps,
                k,
                pointer,
                call->PointerCast_pointer,
            );
        },
        Step::PointerCastLike { pointer, like, .. } => {
            pointers_stand_for_addresses(
                emitter,
                m,
                meaning,
                steps,
                k,
                pointer,
                call->PointerCastLike_pointer,
            );
            pointers_stand_for_addresses(
                emitter,
                m,
                meaning,
                steps,
                k,
                like,
                call->PointerCastLike_like,
            );
        },
        Step::ArrayAlloca { count, .. } => {
            integers_stand_for_themselves(emitter, m, meaning, steps, k, count, call->ArrayAlloca_count);
        },
        Step::Load { pointer, width, .. } => {
            pointers_stand_for_addresses(emitter, m, meaning, steps, k, pointer, call->Load_pointer);
            assert(steps[k].yields(0) == Some(Kind::Int(width)));
        },
        Step::Store { pointer, value } => {
            pointers_stand_for_addresses(emitter, m, meaning, steps, k, pointer, call->Store_pointer);
            integers_stand_for_themselves(emitter, m, meaning, steps, k, value, call->Store_value);
        },
        Step::CondBranch { condition, .. } => {
            integers_stand_for_themselves(
                emitter,
                m,
                meaning,
                steps,
                k,
                condition,
                call->CondBranch_condition,
            );
        },
        Step::Return { value } => {
            integers_stand_for_themselves(emitter, m, meaning, steps, k, value, call->Return_value);
        },
        Step::PositionAtEnd { block } => {
            assert(emitter.blocks@[block.step as int] is Some);
        },
        _ => {},
    }
}

/// A step is carried out by exactly one of three: the builder, the module, or the rest of the
/// compiler, which hands in values, finds addresses, adds globals, emits the contract's
/// functions and dispatches, and encodes and decodes.
pub proof fn every_step_has_one_worker<'a>(step: Step<'a>)
    ensures
        builds(step) <==> is_for_builder(step),
        declares(step) <==> is_for_functions(step),
        asks(step) <==> step is Import || step is Gep || step is GlobalString
            || step is EmitFunctions || step is EmitInitializer || step is Dispatch
            || step is Internalize || step is Wasm || step is Decode || step is DynamicLength
            || step is EncodeTy,
{
}

/// A reference stands for the function that it names: one that the module holds under a name,
/// one that a step added, or one that the compiler emitted, each at its number.
pub proof fn references_stand_for_their_functions<'ctx>(
    emitter: Emitter<'ctx>,
    symbol: Symbol,
    i: usize,
)
    ensures
        ({
            let named = emitter.function(FunctionRef::Symbol(symbol));
            let held = llvm::functions(emitter.module);
            &&& named is Some <==> held.contains_key(symbol.spec_name()@)
            &&& named is Some ==> named == Some(held[symbol.spec_name()@])
        }),
        i < emitter.added@.len() ==> emitter.function(FunctionRef::Added(i))
            == emitter.added@[i as int],
        i < emitter.functions@.len() ==> emitter.function(FunctionRef::Function(i)) == Some(
            emitter.functions@[i as int],
        ),
        i >= emitter.functions@.len() ==> emitter.function(FunctionRef::Function(i)) is None,
        i < emitter.constructors@.len() ==> emitter.function(FunctionRef::Constructor(i)) == Some(
            emitter.constructors@[i as int],
        ),
        i >= emitter.constructors@.len() ==> emitter.function(FunctionRef::Constructor(i)) is None,
        emitter.function(FunctionRef::Initializer(i)) == emitter.initializer,
        emitter.function(FunctionRef::Enclosing) == emitter.enclosing,
{
}

/// A step fails only for a reason. The builder has no position, and the step adds an
/// instruction. The function that the step calls or appends a block to does not exist. Or the
/// function that it calls does not return what its callers need. A function that exists and
/// returns what it has to can be called wherever the builder has a position.
pub proof fn failures_have_reasons<'ctx, 'a>(
    emitter: Emitter<'ctx>,
    step: Step<'a>,
    error: EmitError,
)
    requires
        emitter.blocked(step, error),
    ensures
        is_for_builder(step) || step is AppendBlock,
        !(step is PositionAtEnd),
        error is Unpositioned ==> is_for_builder(step) && !llvm::positioned(emitter.builder),
        !(error is UnexpectedReply),
        error matches EmitError::MissingFunction(f) ==> emitter.function(f) is None,
        step matches Step::Call { callee, .. } ==> {
            ||| !llvm::positioned(emitter.builder)
            ||| emitter.function(callee) is None
            ||| step.yields(0) is Some && llvm::return_kind(emitter.function(callee)->0)
                != step.yields(0)
        },
        step matches Step::CallDecoded { callee, .. } ==> !llvm::positioned(emitter.builder)
            || emitter.function(callee) is None,
        step matches Step::AppendBlock { function, .. } ==> emitter.function(function) is None,
        is_for_builder(step) && !(step is Call) && !(step is CallDecoded) ==> !llvm::positioned(
            emitter.builder,
        ),
{
}

/// What is handed in for a step fits exactly when there is one value for each that the step
/// yields, of its kind.
pub proof fn replies_fit_by_number_and_kind<'ctx, 'a>(
    step: Step<'a>,
    values: Seq<BasicValueEnum<'ctx>>,
)
    ensures
        (step is EmitFunctions || step is EmitInitializer || step is Dispatch || step is Internalize
            || step is Wasm) ==> (fits(step, values) <==> values.len() == 0),
        step matches Step::Import { kind } ==> (fits(step, values) <==> values.len() == 1
            && kind.admits(llvm::value_kind(values[0]))),
        step matches Step::Gep { pointer, .. } ==> (fits(step, values) <==> values.len() == 1
            && Kind::Pointer(pointer.spec_pointee()).admits(llvm::value_kind(values[0]))),
        step is GlobalString ==> (fits(step, values) <==> values.len() == 1 && llvm::value_kind(
            values[0],
        ) == Kind::Pointer(Pointee::Int(8))),
        step is DynamicLength ==> (fits(step, values) <==> values.len() == 1 && llvm::value_kind(
            values[0],
        ) == Kind::Int(32)),
        step matches Step::Decode { parameters, .. } ==> (fits(step, values) <==> values.len()
            == parameters@.len()),
        step matches Step::EncodeTy { data, offset, dynamic, .. } ==> (fits(step, values) <==> {
            &&& values.len() == 3
            &&& Kind::Pointer(data.spec_pointee()).admits(llvm::value_kind(values[0]))
            &&& llvm::value_kind(values[1]) == Kind::Int(offset.spec_width())
            &&& Kind::Pointer(dynamic.spec_pointee()).admits(llvm::value_kind(values[2]))
        }),
{
    let n = values.len() as int;
    assert(fits(step, values) ==> {
        &&& step.yields(n) is None
        &&& n > 0 ==> step.yields(n - 1) is Some
        &&& step.yields(0) is Some ==> n > 0
        &&& step.yields(1) is Some ==> n > 1
        &&& step.yields(2) is Some ==> n > 2
    });
    if let Step::Decode { parameters, .. } = step {
        if fits(step, values) && n < parameters@.len() {
            assert(step.yields(n) is Some);
        }
    }
}

/// A kind asks for no other kind: an integer of a width for that width, a pointer to integers
/// of a width for such a pointer, a pointer to anything for a pointer.
pub proof fn kinds_are_kept_apart(kind: Kind, actual: Kind)
    ensures
        kind.is_plain() ==> (kind.admits(actual) <==> kind == actual),
        kind == Kind::Pointer(Pointee::Other) ==> (kind.admits(actual) <==> actual is Pointer),
        kind is Other ==> kind.admits(actual),
{
}

/// What an emitter has yielded, appended and added stays as it is, and so do the functions
/// that it works with. Every name that stood for a function still stands for it.
pub proof fn results_are_kept<'ctx>(
    before: Emitter<'ctx>,
    after: Emitter<'ctx>,
    k: int,
    name: Seq<char>,
)
    requires
        after.grew(before),
    ensures
        0 <= k < before.values@.len() ==> k < after.values@.len() && after.values@[k]
            == before.values@[k],
        0 <= k < before.blocks@.len() ==> k < after.blocks@.len() && after.blocks@[k]
            == before.blocks@[k],
        0 <= k < before.added@.len() ==> k < after.added@.len() && after.added@[k]
            == before.added@[k],
        llvm::functions(before.module).contains_key(name) ==> {
            &&& llvm::functions(after.module).contains_key(name)
            &&& llvm::functions(after.module)[name] == llvm::functions(before.module)[name]
        },
        after.context == before.context,
        after.enclosing == before.enclosing,
        after.initializer == before.initializer,
        after.functions == before.functions,
        after.constructors == before.constructors,
{
    if llvm::functions(before.module).contains_key(name) {
        assert(llvm::functions(before.module).dom().contains(name));
    }
}

/// The calls that were made stay the first ones, in their order.
pub proof fn calls_are_kept<'ctx>(before: Emitter<'ctx>, after: Emitter<'ctx>, i: int)
    requires
        after.remembers(before),
    ensures
        0 <= i < llvm::builder_calls(before.builder).len() ==> {
            &&& i < llvm::builder_calls(after.builder).len()
            &&& llvm::builder_calls(after.builder)[i] == llvm::builder_calls(before.builder)[i]
        },
        0 <= i < llvm::module_calls(before.module).len() ==> {
            &&& i < llvm::module_calls(after.module).len()
            &&& llvm::module_calls(after.module)[i] == llvm::module_calls(before.module)[i]
        },
{
}

/// An emitter has one entry for each step that was carried out: values of the kinds that the
/// step yields, a block exactly where the step appends one, and a function exactly where it
/// adds one.
pub proof fn every_step_has_its_results<'ctx, 'a>(
    emitter: Emitter<'ctx>,
    steps: Seq<Step<'a>>,
    k: int,
)
    requires
        emitter.tracks(steps),
    ensures
        emitter.values@.len() <= steps.len(),
        emitter.blocks@.len() == emitter.values@.len(),
        emitter.added@.len() == emitter.values@.len(),
        0 <= k < emitter.values@.len() ==> {
            &&& emitter.blocks@[k] is Some <==> steps[k] is AppendBlock
            &&& emitter.added@[k] is Some <==> steps[k] is AddFunction
            &&& fits(steps[k], emitter.values@[k]@)
        },
{
}

/// The functions that the steps added are those that their names stand for.
pub proof fn added_functions_have_their_names<'ctx, 'a>(
    emitter: Emitter<'ctx>,
    steps: Seq<Step<'a>>,
    from: int,
    k: int,
)
    requires
        emitter.holds_added(steps, from),
        from <= k < emitter.values@.len(),
        emitter.added@[k] is Some,
    ensures
        steps[k] matches Step::AddFunction { symbol, .. } ==> {
            &&& llvm::functions(emitter.module).contains_key(symbol.spec_name()@)
            &&& emitter.added@[k] == Some(
                llvm::functions(emitter.module)[symbol.spec_name()@],
            )
        },
{
    assert(steps[k] == steps[k]);
}

} // verus!
