//! Carries steps out on an LLVM module.
use crate::contract::Contract;
use crate::ir::{
    BlockRef, FunctionRef, IntOperand, Kind, List, Operand, Pointee, PointerOperand, Step, Symbol,
    block_defined, int_defined, pointer_defined, value_defined,
};
use crate::laws::declarations::names_are_distinct;
use crate::llvm::{self, BuilderCall, ModuleCall};
use inkwell::basic_block::BasicBlock;
use inkwell::builder::{Builder, BuilderError};
use inkwell::context::Context;
use inkwell::module::Module;
use inkwell::types::BasicTypeEnum;
use inkwell::values::{BasicValueEnum, FunctionValue};
use vstd::pervasive::unreached;
use vstd::prelude::*;

verus! {

/// Why a step could not be carried out.
#[derive(Clone, Copy, PartialEq, Eq, Debug)]
pub enum EmitError {
    /// The builder has no position.
    Unpositioned,
    /// There is no such function.
    MissingFunction(FunctionRef),
    /// The function's type says that it returns neither an integer nor a pointer. It was
    /// not called.
    NoResult(FunctionRef),
    /// A function was called and returned something else than its callers need.
    UnexpectedResult,
    /// The compiler's reply does not fit the step.
    UnexpectedReply,
}

/// How far the steps were carried out.
#[derive(Clone, Copy, PartialEq, Eq, Structural, Debug)]
pub enum Progress {
    /// All of them were.
    Done,
    /// All before this one were, which is for the compiler to carry out.
    Request(usize),
}

/// The step is a call on the builder.
pub open spec fn builds(step: Step) -> bool {
    match step {
        Step::PositionAtEnd { .. } | Step::Call { .. } | Step::CallDecoded { .. }
        | Step::IntAdd { .. } | Step::IntSub { .. } | Step::IntUnsignedDiv { .. }
        | Step::IntEqual { .. } | Step::PointerCast { .. } | Step::PointerCastLike { .. }
        | Step::Alloca { .. }
        | Step::ArrayAlloca { .. } | Step::Load { .. } | Step::Store { .. }
        | Step::CondBranch { .. } | Step::Return { .. } | Step::Unreachable => true,
        _ => false,
    }
}

/// The step is a call on the module.
pub open spec fn declares(step: Step) -> bool {
    step is AddFunction || step is SetNoReturn || step is AppendBlock
}

/// The step is for the compiler to carry out.
pub open spec fn asks(step: Step) -> bool {
    !builds(step) && !declares(step)
}

/// How many of the steps from `from` up to `to` are calls on the builder.
pub open spec fn count_builds(steps: Seq<Step>, from: int, to: int) -> nat
    decreases to - from,
{
    if to <= from {
        0
    } else {
        count_builds(steps, from, to - 1) + if builds(steps[to - 1]) {
            1nat
        } else {
            0nat
        }
    }
}

/// How many of the steps from `from` up to `to` are calls on the module.
pub open spec fn count_declares(steps: Seq<Step>, from: int, to: int) -> nat
    decreases to - from,
{
    if to <= from {
        0
    } else {
        count_declares(steps, from, to - 1) + if declares(steps[to - 1]) {
            1nat
        } else {
            0nat
        }
    }
}

/// The functions that the steps from number `from` up to `to` add have names that are not
/// taken, and no two of them have the same.
pub open spec fn fresh(steps: Seq<Step>, from: int, to: int, taken: Set<Seq<char>>) -> bool {
    &&& forall|k: int|
        from <= k < to ==> (#[trigger] steps[k] matches Step::AddFunction { symbol, .. }
            ==> !taken.contains(symbol.spec_name()@))
    &&& forall|j: int, k: int|
        from <= j < k < to ==> (#[trigger] steps[j] matches Step::AddFunction { symbol: a, .. }
            ==> (#[trigger] steps[k] matches Step::AddFunction { symbol: b, .. } ==> a != b))
}

/// One of the steps from number `from` up to `to` adds a function of that name.
pub open spec fn adds_name(steps: Seq<Step>, from: int, to: int, name: Seq<char>) -> bool {
    exists|k: int|
        from <= k < to && (#[trigger] steps[k] matches Step::AddFunction { symbol, .. }
            && symbol.spec_name()@ == name)
}

/// The values are those that the step yields, in number and kind.
pub open spec fn fits(step: Step, values: Seq<BasicValueEnum>) -> bool {
    forall|part: int|
        match #[trigger] step.yields(part) {
            Some(kind) => {
                &&& 0 <= part < values.len()
                &&& kind.admits(llvm::value_kind(values[part]))
            },
            None => !(0 <= part < values.len()),
        }
}

/// An LLVM module, a builder on it, and what the steps carried out so far yielded.
///
/// `enclosing`, `initializer`, `functions` and `constructors` are the functions that
/// the compiler emitted. `values`, `blocks` and `added` hold, for each step so far, its
/// values, the block that it appended and the function that it added.
pub struct Emitter<'ctx> {
    pub context: &'ctx Context,
    pub module: Module<'ctx>,
    pub builder: Builder<'ctx>,
    pub enclosing: Option<FunctionValue<'ctx>>,
    pub initializer: Option<FunctionValue<'ctx>>,
    pub functions: Vec<FunctionValue<'ctx>>,
    pub constructors: Vec<FunctionValue<'ctx>>,
    pub values: Vec<Vec<BasicValueEnum<'ctx>>>,
    pub blocks: Vec<Option<BasicBlock<'ctx>>>,
    pub added: Vec<Option<FunctionValue<'ctx>>>,
}

impl<'ctx> Emitter<'ctx> {
    /// The LLVM function, if there is one.
    pub open spec fn function(self, function: FunctionRef) -> Option<FunctionValue<'ctx>> {
        match function {
            FunctionRef::Symbol(symbol) => {
                let name = symbol.spec_name()@;
                if llvm::functions(self.module).contains_key(name) {
                    Some(llvm::functions(self.module)[name])
                } else {
                    None
                }
            },
            FunctionRef::Added(step) => if step < self.added@.len() {
                self.added@[step as int]
            } else {
                None
            },
            FunctionRef::Initializer(_) => self.initializer,
            FunctionRef::Constructor(i) => if i < self.constructors@.len() {
                Some(self.constructors@[i as int])
            } else {
                None
            },
            FunctionRef::Function(i) => if i < self.functions@.len() {
                Some(self.functions@[i as int])
            } else {
                None
            },
            FunctionRef::Enclosing => self.enclosing,
        }
    }

    /// The LLVM value is the integer.
    pub open spec fn is_int(self, operand: IntOperand, value: BasicValueEnum<'ctx>) -> bool {
        match operand {
            IntOperand::Const { width, value: number } => {
                &&& llvm::is_constant(value, width, number)
                &&& llvm::value_kind(value) == Kind::Int(width)
            },
            IntOperand::Register { register, .. } => value
                == self.values@[register.step as int]@[register.part as int],
        }
    }

    /// The LLVM value is the pointer.
    pub open spec fn is_pointer(self, operand: PointerOperand, value: BasicValueEnum<'ctx>) -> bool {
        match operand {
            PointerOperand::Null { pointee } => {
                &&& llvm::is_null(value)
                &&& llvm::value_kind(value) == Kind::Pointer(pointee)
            },
            PointerOperand::Register { register, .. } => value
                == self.values@[register.step as int]@[register.part as int],
        }
    }

    /// The LLVM value is the operand.
    pub open spec fn is_operand(self, operand: Operand, value: BasicValueEnum<'ctx>) -> bool {
        match operand {
            Operand::Int(v) => self.is_int(v, value),
            Operand::Pointer(v) => self.is_pointer(v, value),
            Operand::Other(register) => value
                == self.values@[register.step as int]@[register.part as int],
        }
    }

    /// The values, blocks and added functions are those of the first steps.
    pub open spec fn tracks(self, steps: Seq<Step>) -> bool {
        &&& self.values@.len() == self.blocks@.len()
        &&& self.values@.len() == self.added@.len()
        &&& self.values@.len() <= steps.len()
        &&& forall|k: int| 0 <= k < self.values@.len() ==> fits(steps[k], #[trigger] self.values@[k]@)
        &&& forall|k: int|
            0 <= k < self.blocks@.len() ==> (#[trigger] self.blocks@[k] is Some
                <==> steps[k] is AppendBlock)
        &&& forall|k: int|
            0 <= k < self.added@.len() ==> (#[trigger] self.added@[k] is Some
                <==> steps[k] is AddFunction)
    }

    /// Everything that was there still is.
    pub open spec fn grew(self, before: Emitter<'ctx>) -> bool {
        &&& before.values@.len() <= self.values@.len()
        &&& before.blocks@.len() <= self.blocks@.len()
        &&& before.added@.len() <= self.added@.len()
        &&& forall|k: int|
            0 <= k < before.values@.len() ==> #[trigger] self.values@[k] == before.values@[k]
        &&& forall|k: int|
            0 <= k < before.blocks@.len() ==> #[trigger] self.blocks@[k] == before.blocks@[k]
        &&& forall|k: int|
            0 <= k < before.added@.len() ==> #[trigger] self.added@[k] == before.added@[k]
        &&& llvm::functions(before.module).submap_of(llvm::functions(self.module))
        &&& self.enclosing == before.enclosing
        &&& self.initializer == before.initializer
        &&& self.functions == before.functions
        &&& self.constructors == before.constructors
        &&& self.context == before.context
    }

    /// The call on the builder is what the step asks for, with the LLVM values of its
    /// operands, and its result is what the step yielded.
    pub open spec fn carried_out(
        self,
        step: Step,
        results: Seq<BasicValueEnum<'ctx>>,
        call: BuilderCall<'ctx>,
    ) -> bool {
        match step {
            Step::PositionAtEnd { block } => call == (BuilderCall::PositionAtEnd {
                block: self.blocks@[block.step as int]->0,
            }),
            Step::Call { callee, args, name } => {
                &&& call matches BuilderCall::Call { callee: f, args: a, name: n, returned }
                &&& self.function(callee) == Some(f)
                &&& a.len() == args@.len()
                &&& forall|i: int|
                    0 <= i < a.len() ==> self.is_operand(args@[i], #[trigger] a[i])
                &&& n == name@
                &&& step.yields(0) is Some ==> {
                    &&& returned == Some(results[0])
                    &&& llvm::return_kind(f) == step.yields(0)
                }
            },
            Step::CallDecoded { callee, decode } => {
                &&& call matches BuilderCall::Call { callee: f, args: a, name: n, returned: _ }
                &&& self.function(callee) == Some(f)
                &&& a == self.values@[decode as int]@
                &&& n == ""@
            },
            Step::IntAdd { lhs, rhs } => {
                &&& call matches BuilderCall::IntAdd { lhs: l, rhs: r, result }
                &&& self.is_int(lhs, l) && self.is_int(rhs, r) && result == results[0]
            },
            Step::IntSub { lhs, rhs } => {
                &&& call matches BuilderCall::IntSub { lhs: l, rhs: r, result }
                &&& self.is_int(lhs, l) && self.is_int(rhs, r) && result == results[0]
            },
            Step::IntUnsignedDiv { lhs, rhs } => {
                &&& call matches BuilderCall::IntUnsignedDiv { lhs: l, rhs: r, result }
                &&& self.is_int(lhs, l) && self.is_int(rhs, r) && result == results[0]
            },
            Step::IntEqual { lhs, rhs, name } => {
                &&& call matches BuilderCall::IntEqual { lhs: l, rhs: r, name: n, result }
                &&& self.is_int(lhs, l) && self.is_int(rhs, r) && result == results[0]
                &&& n == name@
            },
            Step::PointerCast { pointer, width, name } => {
                &&& call matches BuilderCall::PointerCast { pointer: p, width: w, name: n, result }
                &&& self.is_pointer(pointer, p) && w == width && n == name@
                &&& result == results[0]
            },
            Step::PointerCastLike { pointer, like, name } => {
                &&& call matches BuilderCall::PointerCastLike { pointer: p, like: l, name: n, result }
                &&& self.is_pointer(pointer, p) && self.is_pointer(like, l) && n == name@
                &&& result == results[0]
            },
            Step::Alloca { width, name } => call == (BuilderCall::Alloca {
                width,
                name: name@,
                result: results[0],
            }),
            Step::ArrayAlloca { width, count, name } => {
                &&& call matches BuilderCall::ArrayAlloca { width: w, count: c, name: n, result }
                &&& w == width && self.is_int(count, c) && n == name@ && result == results[0]
            },
            Step::Load { pointer, name, .. } => {
                &&& call matches BuilderCall::Load { pointer: p, name: n, result }
                &&& self.is_pointer(pointer, p) && n == name@ && result == results[0]
            },
            Step::Store { pointer, value } => {
                &&& call matches BuilderCall::Store { pointer: p, value: v }
                &&& self.is_pointer(pointer, p) && self.is_int(value, v)
            },
            Step::CondBranch { condition, then_block, else_block } => {
                &&& call matches BuilderCall::CondBranch { condition: c, then_block: t, else_block: e }
                &&& self.is_int(condition, c)
                &&& self.blocks@[then_block.step as int] == Some(t)
                &&& self.blocks@[else_block.step as int] == Some(e)
            },
            Step::Return { value } => {
                &&& call matches BuilderCall::Return { value: v }
                &&& self.is_int(value, v)
            },
            Step::Unreachable => call == BuilderCall::Unreachable,
            _ => false,
        }
    }

    /// The call on the module is what the step asks for. `added` is the function that it
    /// gave back, `appended` the block.
    pub open spec fn declared(
        self,
        step: Step,
        call: ModuleCall<'ctx>,
        added: Option<FunctionValue<'ctx>>,
        appended: Option<BasicBlock<'ctx>>,
    ) -> bool {
        match step {
            Step::AddFunction { symbol, ret, params, external } => {
                &&& call matches ModuleCall::AddFunction {
                    name,
                    ret: r,
                    params: p,
                    external: e,
                    result: f,
                }
                &&& name == symbol.spec_name()@
                &&& e == external
                &&& match (ret, r) {
                    (Some(kind), Some(ty)) => llvm::type_kind(ty) == kind,
                    (None, None) => true,
                    _ => false,
                }
                &&& p.len() == params@.len()
                &&& forall|i: int|
                    0 <= i < p.len() ==> llvm::type_kind(#[trigger] p[i]) == params@[i]
                &&& added == Some(f)
                &&& llvm::return_kind(f) == ret
            },
            Step::SetNoReturn { declaration } => {
                &&& call matches ModuleCall::NoReturn { function: f }
                &&& self.added@[declaration as int] == Some(f)
            },
            Step::AppendBlock { function, name } => {
                &&& call matches ModuleCall::AppendBlock { function: f, name: n, result: b }
                &&& self.function(function) == Some(f)
                &&& n == name@
                &&& appended == Some(b)
            },
            _ => false,
        }
    }

    /// Step number `k` was carried out. It is the next call on the builder after the first
    /// `calls` calls and those for the steps from number `from` on, or the next call on the
    /// module after its first `changes` calls and those for these steps.
    pub open spec fn did_step(
        self,
        steps: Seq<Step>,
        from: int,
        calls: int,
        changes: int,
        k: int,
    ) -> bool {
        let call = calls + count_builds(steps, from, k);
        let change = changes + count_declares(steps, from, k);
        &&& builds(steps[k]) ==> {
            &&& 0 <= call < llvm::builder_calls(self.builder).len()
            &&& self.carried_out(
                steps[k],
                self.values@[k]@,
                llvm::builder_calls(self.builder)[call],
            )
        }
        &&& declares(steps[k]) ==> {
            &&& 0 <= change < llvm::module_calls(self.module).len()
            &&& self.declared(
                steps[k],
                llvm::module_calls(self.module)[change],
                self.added@[k],
                self.blocks@[k],
            )
        }
        &&& !asks(steps[k])
    }

    /// The steps from number `from` on were carried out, after the first `calls` calls on
    /// the builder and the first `changes` calls on the module.
    pub open spec fn did(self, steps: Seq<Step>, from: int, calls: int, changes: int) -> bool {
        forall|k: int|
            from <= k < self.values@.len() ==> #[trigger] self.did_step(
                steps,
                from,
                calls,
                changes,
                k,
            )
    }

    /// The functions that the steps from number `from` on added are those that their names
    /// stand for.
    pub open spec fn holds_added(self, steps: Seq<Step>, from: int) -> bool {
        forall|k: int|
            from <= k < self.values@.len() ==> (#[trigger] steps[k] matches Step::AddFunction {
                symbol,
                ..
            } ==> self.function(FunctionRef::Symbol(symbol)) == self.added@[k])
    }

    /// A step that adds a function takes its name, where the name is free; any other step
    /// takes no name.
    pub open spec fn took_name(
        self,
        before: Emitter<'ctx>,
        step: Step,
        added: Option<FunctionValue<'ctx>>,
    ) -> bool {
        let taken = llvm::taken(before.module);
        match step {
            Step::AddFunction { symbol, .. } => {
                let name = symbol.spec_name()@;
                !taken.contains(name) ==> {
                    &&& llvm::taken(self.module) == taken.insert(name)
                    &&& self.function(FunctionRef::Symbol(symbol)) == added
                }
            },
            _ => llvm::taken(self.module) == taken,
        }
    }

    /// No call that was made on the builder or the module is forgotten.
    pub open spec fn remembers(self, before: Emitter<'ctx>) -> bool {
        &&& llvm::builder_calls(before.builder).is_prefix_of(llvm::builder_calls(self.builder))
        &&& llvm::module_calls(before.module).is_prefix_of(llvm::module_calls(self.module))
    }

    /// What a step carried out stays so when more is carried out.
    proof fn lemma_carried_out_kept<'a>(
        before: Emitter<'ctx>,
        after: Emitter<'ctx>,
        contract: Contract<'a>,
        k: int,
        results: Seq<BasicValueEnum<'ctx>>,
        call: BuilderCall<'ctx>,
    )
        requires
            after.grew(before),
            0 <= k <= before.values@.len(),
            before.values@.len() == before.blocks@.len(),
            before.values@.len() == before.added@.len(),
            contract.accepts(k, contract.steps@[k]),
            before.carried_out(contract.steps@[k], results, call),
        ensures
            after.carried_out(contract.steps@[k], results, call),
    {
        let step = contract.steps@[k];
        assert forall|f: FunctionRef| before.function(f) is Some implies after.function(f)
            == #[trigger] before.function(f) by {}
        match step {
            Step::Call { callee, args, name } => {
                let a = call->Call_args;
                assert forall|i: int| 0 <= i < a.len() implies after.is_operand(
                    args@[i],
                    #[trigger] a[i],
                ) by {
                    assert(before.is_operand(args@[i], a[i]));
                    assert(value_defined(contract.steps@, k, args@[i]));
                }
            },
            _ => {},
        }
    }

    /// The steps that were carried out stay so when more is carried out.
    proof fn lemma_did_kept<'a>(
        before: Emitter<'ctx>,
        after: Emitter<'ctx>,
        contract: Contract<'a>,
        from: int,
        calls: int,
        changes: int,
    )
        requires
            contract.wf(),
            0 <= from,
            before.tracks(contract.steps@),
            before.did(contract.steps@, from, calls, changes),
            after.grew(before),
            after.remembers(before),
        ensures
            forall|k: int|
                from <= k < before.values@.len() ==> #[trigger] after.did_step(
                    contract.steps@,
                    from,
                    calls,
                    changes,
                    k,
                ),
    {
        let steps = contract.steps@;
        assert forall|k: int| from <= k < before.values@.len() implies #[trigger] after.did_step(
            steps,
            from,
            calls,
            changes,
            k,
        ) by {
            assert(before.did_step(steps, from, calls, changes, k));
            reveal(Contract::wf);
            assert(contract.accepts(k, steps[k]));
            assert(after.values@[k] == before.values@[k]);
            assert(after.blocks@[k] == before.blocks@[k]);
            assert(after.added@[k] == before.added@[k]);
            if builds(steps[k]) {
                let call = calls + count_builds(steps, from, k);
                assert(llvm::builder_calls(after.builder)[call] == llvm::builder_calls(
                    before.builder,
                )[call]);
                Self::lemma_carried_out_kept(
                    before,
                    after,
                    contract,
                    k,
                    before.values@[k]@,
                    llvm::builder_calls(before.builder)[call],
                );
            }
            if declares(steps[k]) {
                let change = changes + count_declares(steps, from, k);
                assert(llvm::module_calls(after.module)[change] == llvm::module_calls(
                    before.module,
                )[change]);
            }
        }
    }

    /// The LLVM function, if there is one.
    pub fn find(&self, function: FunctionRef) -> (found: Option<FunctionValue<'ctx>>)
        ensures
            found == self.function(function),
    {
        match function {
            FunctionRef::Symbol(symbol) => {
                proof {
                    lemma_is_name(symbol);
                }
                llvm::get_function(&self.module, symbol.name())
            },
            FunctionRef::Added(step) => if step < self.added.len() {
                self.added[step]
            } else {
                None
            },
            FunctionRef::Initializer(_) => self.initializer,
            FunctionRef::Constructor(i) => if i < self.constructors.len() {
                Some(self.constructors[i])
            } else {
                None
            },
            FunctionRef::Function(i) => if i < self.functions.len() {
                Some(self.functions[i])
            } else {
                None
            },
            FunctionRef::Enclosing => self.enclosing,
        }
    }

    /// The LLVM value of the integer.
    pub fn int_value<'a>(&self, operand: IntOperand, contract: &Contract<'a>) -> (value:
        BasicValueEnum<'ctx>)
        requires
            self.tracks(contract.steps@),
            int_defined(contract.steps@, self.values@.len() as int, operand),
        ensures
            self.is_int(operand, value),
            llvm::value_kind(value) == Kind::Int(operand.spec_width()),
    {
        match operand {
            IntOperand::Const { width, value } => llvm::const_int(self.context, width, value),
            IntOperand::Register { register, .. } => {
                assert(fits(
                    contract.steps@[register.step as int],
                    self.values@[register.step as int]@,
                ));
                self.values[register.step][register.part]
            },
        }
    }

    /// The LLVM value of the pointer.
    pub fn pointer_value<'a>(&self, operand: PointerOperand, contract: &Contract<'a>) -> (value:
        BasicValueEnum<'ctx>)
        requires
            self.tracks(contract.steps@),
            pointer_defined(contract.steps@, self.values@.len() as int, operand),
        ensures
            self.is_pointer(operand, value),
            Kind::Pointer(operand.spec_pointee()).admits(llvm::value_kind(value)),
    {
        match operand {
            PointerOperand::Null { pointee: Pointee::Int(width) } => llvm::const_null(
                self.context,
                width,
            ),
            PointerOperand::Null { pointee: Pointee::Other } => unreached(),
            PointerOperand::Register { register, .. } => {
                assert(fits(
                    contract.steps@[register.step as int],
                    self.values@[register.step as int]@,
                ));
                self.values[register.step][register.part]
            },
        }
    }

    /// The LLVM value of the operand.
    pub fn operand<'a>(&self, operand: Operand, contract: &Contract<'a>) -> (value:
        BasicValueEnum<'ctx>)
        requires
            self.tracks(contract.steps@),
            value_defined(contract.steps@, self.values@.len() as int, operand),
        ensures
            self.is_operand(operand, value),
    {
        match operand {
            Operand::Int(v) => self.int_value(v, contract),
            Operand::Pointer(v) => self.pointer_value(v, contract),
            Operand::Other(register) => {
                assert(fits(
                    contract.steps@[register.step as int],
                    self.values@[register.step as int]@,
                ));
                self.values[register.step][register.part]
            },
        }
    }

    /// The LLVM values of the arguments.
    fn operands<'a>(&self, args: List<Operand>, contract: &Contract<'a>) -> (values: Vec<
        BasicValueEnum<'ctx>,
    >)
        requires
            self.tracks(contract.steps@),
            forall|i: int|
                0 <= i < args@.len() ==> value_defined(
                    contract.steps@,
                    self.values@.len() as int,
                    #[trigger] args@[i],
                ),
        ensures
            values@.len() == args@.len(),
            forall|i: int|
                0 <= i < values@.len() ==> self.is_operand(args@[i], #[trigger] values@[i]),
    {
        let args: Vec<Operand> = args.to_vec();
        let mut values: Vec<BasicValueEnum<'ctx>> = Vec::new();
        let mut i: usize = 0;
        while i < args.len()
            invariant
                i <= args@.len(),
                values@.len() == i,
                self.tracks(contract.steps@),
                forall|k: int|
                    0 <= k < args@.len() ==> value_defined(
                        contract.steps@,
                        self.values@.len() as int,
                        #[trigger] args@[k],
                    ),
                forall|k: int|
                    0 <= k < values@.len() ==> self.is_operand(args@[k], #[trigger] values@[k]),
            decreases args@.len() - i,
        {
            values.push(self.operand(args[i], contract));
            i += 1;
        }
        values
    }

    /// The LLVM block.
    pub fn block<'a>(&self, block: BlockRef, contract: &Contract<'a>) -> (found: BasicBlock<
        'ctx,
    >)
        requires
            self.tracks(contract.steps@),
            block_defined(contract.steps@, self.values@.len() as int, block),
        ensures
            self.blocks@[block.step as int] == Some(found),
    {
        self.blocks[block.step].unwrap()
    }

    /// The LLVM type of values of the kind.
    fn type_of(&self, kind: Kind) -> (ty: BasicTypeEnum<'ctx>)
        requires
            kind.is_plain(),
        ensures
            llvm::type_kind(ty) == kind,
    {
        match kind {
            Kind::Int(width) => llvm::int_type(self.context, width),
            Kind::Pointer(Pointee::Int(width)) => llvm::pointer_type(self.context, width),
            _ => unreached(),
        }
    }

    /// The step could not be carried out for that reason.
    pub open spec fn blocked(self, step: Step, error: EmitError) -> bool {
        match error {
            EmitError::Unpositioned => {
                &&& builds(step)
                &&& !(step is PositionAtEnd)
                &&& !llvm::positioned(self.builder)
            },
            EmitError::MissingFunction(function) => {
                &&& self.function(function) is None
                &&& match step {
                    Step::Call { callee, .. } => callee == function,
                    Step::CallDecoded { callee, .. } => callee == function,
                    Step::AppendBlock { function: f, .. } => f == function,
                    _ => false,
                }
            },
            EmitError::NoResult(function) => {
                &&& step matches Step::Call { callee, .. } && callee == function
                &&& step.yields(0) is Some
                &&& self.function(function) matches Some(f) && {
                    &&& !llvm::returns_word(llvm::type_text(f))
                    &&& llvm::return_kind(f) matches Some(kind) ==> !kind.is_plain()
                }
            },
            EmitError::UnexpectedResult => {
                &&& step matches Step::Call { callee, args, name }
                &&& step.yields(0) is Some
                &&& llvm::builder_calls(self.builder).last() matches BuilderCall::Call {
                    callee: f,
                    args: a,
                    name: n,
                    returned,
                }
                &&& self.function(callee) == Some(f)
                &&& a.len() == args@.len()
                &&& forall|i: int|
                    0 <= i < a.len() ==> self.is_operand(args@[i], #[trigger] a[i])
                &&& n == name@
                &&& returned matches Some(value) && !(step.yields(0)->0).admits(
                    llvm::value_kind(value),
                )
                &&& llvm::return_kind(f) != step.yields(0)
            },
            EmitError::UnexpectedReply => false,
        }
    }

    /// Everything but the builder and the module is as it was.
    pub open spec fn same_tables(self, before: Emitter<'ctx>) -> bool {
        &&& self.context == before.context
        &&& self.enclosing == before.enclosing
        &&& self.initializer == before.initializer
        &&& self.functions == before.functions
        &&& self.constructors == before.constructors
        &&& self.values == before.values
        &&& self.blocks == before.blocks
        &&& self.added == before.added
    }

    /// Makes a call.
    fn build_call<'a>(
        &mut self,
        callee: FunctionRef,
        args: List<Operand>,
        name: &'static str,
        contract: &Contract<'a>,
        Ghost(step): Ghost<Step<'a>>,
    ) -> (r: Result<Vec<BasicValueEnum<'ctx>>, EmitError>)
        requires
            old(self).tracks(contract.steps@),
            step == (Step::Call { callee, args, name }),
            contract.accepts(old(self).values@.len() as int, step),
        ensures
            final(self).same_tables(*old(self)),
            final(self).module == old(self).module,
            match r {
                Ok(results) => {
                    &&& fits(step, results@)
                    &&& llvm::builder_calls(final(self).builder).len() == llvm::builder_calls(
                        old(self).builder,
                    ).len() + 1
                    &&& llvm::builder_calls(final(self).builder).drop_last()
                        == llvm::builder_calls(old(self).builder)
                    &&& final(self).carried_out(
                        step,
                        results@,
                        llvm::builder_calls(final(self).builder).last(),
                    )
                },
                Err(error) => {
                    &&& final(self).blocked(step, error)
                    &&& llvm::builder_calls(old(self).builder).is_prefix_of(
                        llvm::builder_calls(final(self).builder),
                    )
                    &&& llvm::builder_calls(final(self).builder).len() == llvm::builder_calls(
                        old(self).builder,
                    ).len() + if error is UnexpectedResult {
                        1int
                    } else {
                        0int
                    }
                },
            },
            llvm::positioned(final(self).builder) == (llvm::positioned(old(self).builder)
                || step is PositionAtEnd),
    {
        let ghost steps = contract.steps@;
        match self.find(callee) {
            Some(f) => {
                let values = self.operands(args, contract);
                match returned(callee) {
                    Some(kind) => {
                        if !starts_with_integer(llvm::print_type(f)) {
                            return Err(EmitError::NoResult(callee));
                        }
                        let made = llvm::build_value_call(
                            &mut self.builder,
                            f,
                            values.as_slice(),
                            name,
                        );
                        match made {
                            Ok(result) => {
                                assert(llvm::builder_calls(self.builder).drop_last()
                                    =~= llvm::builder_calls(old(self).builder));
                                match result {
                                    Some(value) if has_kind(value, kind) => {
                                        let mut results: Vec<BasicValueEnum<'ctx>> = Vec::new();
                                        results.push(value);
                                        Ok(results)
                                    },
                                    _ => Err(EmitError::UnexpectedResult),
                                }
                            },
                            Err(_) => Err(EmitError::Unpositioned),
                        }
                    },
                    None => none(
                        llvm::build_call(&mut self.builder, f, values.as_slice(), name),
                    ),
                }
            },
            None => Err(EmitError::MissingFunction(callee)),
        }
    }

    /// Makes the call on the builder that the step asks for. Returns what it yielded.
    #[verifier::rlimit(40)]
    fn build<'a>(&mut self, step: Step<'a>, contract: &Contract<'a>) -> (r: Result<
        Vec<BasicValueEnum<'ctx>>,
        EmitError,
    >)
        requires
            old(self).tracks(contract.steps@),
            builds(step),
            contract.accepts(old(self).values@.len() as int, step),
        ensures
            final(self).same_tables(*old(self)),
            final(self).module == old(self).module,
            match r {
                Ok(results) => {
                    &&& fits(step, results@)
                    &&& llvm::builder_calls(final(self).builder).len() == llvm::builder_calls(
                        old(self).builder,
                    ).len() + 1
                    &&& llvm::builder_calls(final(self).builder).drop_last()
                        == llvm::builder_calls(old(self).builder)
                    &&& final(self).carried_out(
                        step,
                        results@,
                        llvm::builder_calls(final(self).builder).last(),
                    )
                },
                Err(error) => {
                    &&& final(self).blocked(step, error)
                    &&& llvm::builder_calls(old(self).builder).is_prefix_of(
                        llvm::builder_calls(final(self).builder),
                    )
                    &&& llvm::builder_calls(final(self).builder).len() == llvm::builder_calls(
                        old(self).builder,
                    ).len() + if error is UnexpectedResult {
                        1int
                    } else {
                        0int
                    }
                },
            },
            llvm::positioned(final(self).builder) == (llvm::positioned(old(self).builder)
                || step is PositionAtEnd),
    {
        let ghost steps = contract.steps@;
        let made = match step {
            Step::PositionAtEnd { block } => {
                let target = self.block(block, contract);
                llvm::position_at_end(&mut self.builder, target);
                Ok(Vec::new())
            },
            Step::Call { callee, args, name } => self.build_call(
                callee,
                args,
                name,
                contract,
                Ghost(step),
            ),
            Step::CallDecoded { callee, decode } => {
                match self.find(callee) {
                    Some(f) => {
                        let args = self.values[decode].as_slice();
                        none(llvm::build_call(&mut self.builder, f, args, ""))
                    },
                    None => Err(EmitError::MissingFunction(callee)),
                }
            },
            Step::IntAdd { lhs, rhs } => {
                let l = self.int_value(lhs, contract);
                let r = self.int_value(rhs, contract);
                one(llvm::build_int_add(&mut self.builder, l, r))
            },
            Step::IntSub { lhs, rhs } => {
                let l = self.int_value(lhs, contract);
                let r = self.int_value(rhs, contract);
                one(llvm::build_int_sub(&mut self.builder, l, r))
            },
            Step::IntUnsignedDiv { lhs, rhs } => {
                let l = self.int_value(lhs, contract);
                let r = self.int_value(rhs, contract);
                one(llvm::build_int_unsigned_div(&mut self.builder, l, r))
            },
            Step::IntEqual { lhs, rhs, name } => {
                let l = self.int_value(lhs, contract);
                let r = self.int_value(rhs, contract);
                one(llvm::build_int_equal(&mut self.builder, l, r, name))
            },
            Step::PointerCast { pointer, width, name } => {
                let p = self.pointer_value(pointer, contract);
                one(llvm::build_pointer_cast(self.context, &mut self.builder, p, width, name))
            },
            Step::PointerCastLike { pointer, like, name } => {
                let p = self.pointer_value(pointer, contract);
                let l = self.pointer_value(like, contract);
                one(llvm::build_pointer_cast_like(&mut self.builder, p, l, name))
            },
            Step::Alloca { width, name } => one(
                llvm::build_alloca(self.context, &mut self.builder, width, name),
            ),
            Step::ArrayAlloca { width, count, name } => {
                let c = self.int_value(count, contract);
                one(llvm::build_array_alloca(self.context, &mut self.builder, width, c, name))
            },
            Step::Load { pointer, name, .. } => {
                let p = self.pointer_value(pointer, contract);
                one(llvm::build_load(&mut self.builder, p, name))
            },
            Step::Store { pointer, value } => {
                let p = self.pointer_value(pointer, contract);
                let v = self.int_value(value, contract);
                none(llvm::build_store(&mut self.builder, p, v))
            },
            Step::CondBranch { condition, then_block, else_block } => {
                let c = self.int_value(condition, contract);
                let t = self.block(then_block, contract);
                let e = self.block(else_block, contract);
                none(llvm::build_conditional_branch(&mut self.builder, c, t, e))
            },
            Step::Return { value } => {
                let v = self.int_value(value, contract);
                none(llvm::build_return(&mut self.builder, v))
            },
            Step::Unreachable => none(llvm::build_unreachable(&mut self.builder)),
            _ => unreached(),
        };
        proof {
            let calls = llvm::builder_calls(self.builder);
            if made is Ok {
                assert(calls.drop_last() =~= llvm::builder_calls(old(self).builder));
            }
        }
        made
    }

    /// The LLVM types of values of the kinds.
    fn types_of(&self, kinds: List<Kind>) -> (types: Vec<BasicTypeEnum<'ctx>>)
        requires
            forall|i: int| 0 <= i < kinds@.len() ==> (#[trigger] kinds@[i]).is_plain(),
        ensures
            types@.len() == kinds@.len(),
            forall|i: int|
                0 <= i < types@.len() ==> llvm::type_kind(#[trigger] types@[i]) == kinds@[i],
    {
        let kinds: Vec<Kind> = kinds.to_vec();
        let mut types: Vec<BasicTypeEnum<'ctx>> = Vec::new();
        let mut i: usize = 0;
        while i < kinds.len()
            invariant
                i <= kinds@.len(),
                types@.len() == i,
                forall|k: int| 0 <= k < kinds@.len() ==> (#[trigger] kinds@[k]).is_plain(),
                forall|k: int|
                    0 <= k < types@.len() ==> llvm::type_kind(#[trigger] types@[k]) == kinds@[k],
            decreases kinds@.len() - i,
        {
            types.push(self.type_of(kinds[i]));
            i += 1;
        }
        types
    }

    /// Makes the call on the module that the step asks for. Returns the function or the
    /// block that it gave back.
    fn declare<'a>(&mut self, step: Step<'a>, contract: &Contract<'a>) -> (r: Result<
        (Option<FunctionValue<'ctx>>, Option<BasicBlock<'ctx>>),
        EmitError,
    >)
        requires
            declares(step),
            old(self).tracks(contract.steps@),
            contract.accepts(old(self).values@.len() as int, step),
        ensures
            final(self).same_tables(*old(self)),
            final(self).builder == old(self).builder,
            llvm::functions(old(self).module).submap_of(llvm::functions(final(self).module)),
            match r {
                Ok((added, appended)) => {
                    &&& added is Some <==> step is AddFunction
                    &&& appended is Some <==> step is AppendBlock
                    &&& llvm::module_calls(final(self).module).len() == llvm::module_calls(
                        old(self).module,
                    ).len() + 1
                    &&& llvm::module_calls(final(self).module).drop_last() == llvm::module_calls(
                        old(self).module,
                    )
                    &&& final(self).declared(
                        step,
                        llvm::module_calls(final(self).module).last(),
                        added,
                        appended,
                    )
                    &&& final(self).took_name(*old(self), step, added)
                },
                Err(error) => {
                    &&& final(self).module == old(self).module
                    &&& final(self).blocked(step, error)
                    &&& error is MissingFunction
                },
            },
    {
        match step {
            Step::AddFunction { symbol, ret, params, external } => {
                proof {
                    lemma_is_name(symbol);
                }
                let types = self.types_of(params);
                let added = match ret {
                    Some(kind) => {
                        let ty = self.type_of(kind);
                        llvm::add_value_function(
                            &mut self.module,
                            symbol.name(),
                            ty,
                            types.as_slice(),
                            external,
                        )
                    },
                    None => llvm::add_void_function(
                        self.context,
                        &mut self.module,
                        symbol.name(),
                        types.as_slice(),
                        external,
                    ),
                };
                assert(llvm::module_calls(self.module).drop_last() =~= llvm::module_calls(
                    old(self).module,
                ));
                Ok((Some(added), None))
            },
            Step::SetNoReturn { declaration } => {
                let function = self.added[declaration].unwrap();
                llvm::set_no_return(&mut self.module, function);
                assert(llvm::module_calls(self.module).drop_last() =~= llvm::module_calls(
                    old(self).module,
                ));
                Ok((None, None))
            },
            Step::AppendBlock { function, name } => {
                match self.find(function) {
                    Some(f) => {
                        let block = llvm::append_basic_block(&mut self.module, f, name);
                        assert(llvm::module_calls(self.module).drop_last() =~= llvm::module_calls(
                            old(self).module,
                        ));
                        Ok((None, Some(block)))
                    },
                    None => Err(EmitError::MissingFunction(function)),
                }
            },
            _ => unreached(),
        }
    }

    /// An emitter that has carried out nothing yet.
    pub fn new(context: &'ctx Context, module: Module<'ctx>, builder: Builder<'ctx>) -> (emitter:
        Emitter<'ctx>)
        ensures
            emitter.context == context,
            emitter.module == module,
            emitter.builder == builder,
            emitter.enclosing is None,
            emitter.initializer is None,
            emitter.functions@.len() == 0,
            emitter.constructors@.len() == 0,
            emitter.values@.len() == 0,
            emitter.blocks@.len() == 0,
            emitter.added@.len() == 0,
            forall|steps: Seq<Step>| emitter.tracks(steps),
    {
        Emitter {
            context,
            module,
            builder,
            enclosing: None,
            initializer: None,
            functions: Vec::new(),
            constructors: Vec::new(),
            values: Vec::new(),
            blocks: Vec::new(),
            added: Vec::new(),
        }
    }

    /// Carries out the next step.
    #[verifier::rlimit(40)]
    fn perform<'a>(
        &mut self,
        step: Step<'a>,
        contract: &Contract<'a>,
        Ghost(from): Ghost<int>,
        Ghost(calls): Ghost<int>,
        Ghost(changes): Ghost<int>,
    ) -> (r: Result<(), EmitError>)
        requires
            contract.wf(),
            old(self).tracks(contract.steps@),
            old(self).values@.len() < contract.steps@.len(),
            step == contract.steps@[old(self).values@.len() as int],
            !asks(step),
            0 <= from <= old(self).values@.len(),
            0 <= calls,
            0 <= changes,
            old(self).did(contract.steps@, from, calls, changes),
            llvm::builder_calls(old(self).builder).len() == calls + count_builds(
                contract.steps@,
                from,
                old(self).values@.len() as int,
            ),
            llvm::module_calls(old(self).module).len() == changes + count_declares(
                contract.steps@,
                from,
                old(self).values@.len() as int,
            ),
        ensures
            final(self).grew(*old(self)),
            final(self).remembers(*old(self)),
            final(self).tracks(contract.steps@),
            final(self).did(contract.steps@, from, calls, changes),
            final(self).values@.len() == old(self).values@.len() + if r is Ok {
                1int
            } else {
                0int
            },
            r matches Err(error) ==> final(self).blocked(step, error),
            r is Ok ==> final(self).took_name(*old(self), step, final(self).added@.last()),
            llvm::positioned(final(self).builder) == (llvm::positioned(old(self).builder)
                || step is PositionAtEnd),
            r is Err ==> final(self).module == old(self).module,
            llvm::builder_calls(final(self).builder).len() == calls + count_builds(
                contract.steps@,
                from,
                final(self).values@.len() as int,
            ) + if r == Err::<(), EmitError>(EmitError::UnexpectedResult) {
                1int
            } else {
                0int
            },
            llvm::module_calls(final(self).module).len() == changes + count_declares(
                contract.steps@,
                from,
                final(self).values@.len() as int,
            ),
    {
        let ghost steps = contract.steps@;
        let ghost n = self.values@.len() as int;
        let ghost before = *self;
        proof {
            reveal(Contract::wf);
            assert(contract.accepts(n, steps[n]));
        }
        match step {
            Step::AddFunction { .. } | Step::SetNoReturn { .. } | Step::AppendBlock { .. } => {
                match self.declare(step, contract) {
                    Ok((added, block)) => {
                        self.values.push(Vec::new());
                        self.blocks.push(block);
                        self.added.push(added);
                    },
                    Err(error) => {
                        return Err(error);
                    },
                }
            },
            _ => {
                match self.build(step, contract) {
                    Ok(results) => {
                        self.values.push(results);
                        self.blocks.push(None);
                        self.added.push(None);
                    },
                    Err(error) => {
                        proof {
                            Self::lemma_did_kept(before, *self, *contract, from, calls, changes);
                        }
                        return Err(error);
                    },
                }
            },
        }
        proof {
            Self::lemma_did_kept(before, *self, *contract, from, calls, changes);
            assert(self.did_step(steps, from, calls, changes, n));
        }
        Ok(())
    }

    /// Carries out steps up to the first one that is for the compiler.
    ///
    /// Each call on the builder, each call on the module and each block is what its step
    /// asks for, in the order of the steps. A step that fails says why and leaves what was
    /// carried out before it.
    #[verifier::rlimit(40)]
    pub fn replay<'a>(&mut self, contract: &Contract<'a>) -> (r: Result<Progress, EmitError>)
        requires
            contract.wf(),
            old(self).tracks(contract.steps@),
        ensures
            final(self).grew(*old(self)),
            final(self).remembers(*old(self)),
            final(self).tracks(contract.steps@),
            final(self).did(
                contract.steps@,
                old(self).values@.len() as int,
                llvm::builder_calls(old(self).builder).len() as int,
                llvm::module_calls(old(self).module).len() as int,
            ),
            llvm::builder_calls(final(self).builder).len() == llvm::builder_calls(
                old(self).builder,
            ).len() + count_builds(
                contract.steps@,
                old(self).values@.len() as int,
                final(self).values@.len() as int,
            ) + if r == Err::<Progress, EmitError>(EmitError::UnexpectedResult) {
                1int
            } else {
                0int
            },
            llvm::module_calls(final(self).module).len() == llvm::module_calls(
                old(self).module,
            ).len() + count_declares(
                contract.steps@,
                old(self).values@.len() as int,
                final(self).values@.len() as int,
            ),
            llvm::positioned(final(self).builder) == (llvm::positioned(old(self).builder) || (exists|
                k: int,
            |
                old(self).values@.len() <= k < final(self).values@.len()
                    && #[trigger] contract.steps@[k] is PositionAtEnd)),
            r == Err::<Progress, EmitError>(EmitError::Unpositioned) ==> {
                &&& !llvm::positioned(old(self).builder)
                &&& forall|k: int|
                    old(self).values@.len() <= k <= final(self).values@.len() ==> !(
                    #[trigger] contract.steps@[k] is PositionAtEnd)
            },
            fresh(
                contract.steps@,
                old(self).values@.len() as int,
                final(self).values@.len() as int,
                llvm::taken(old(self).module),
            ) ==> final(self).holds_added(contract.steps@, old(self).values@.len() as int),
            match r {
                Ok(Progress::Done) => final(self).values@.len() == contract.steps@.len(),
                Ok(Progress::Request(step)) => {
                    &&& step == final(self).values@.len()
                    &&& step < contract.steps@.len()
                    &&& asks(contract.steps@[step as int])
                },
                Err(error) => {
                    &&& final(self).values@.len() < contract.steps@.len()
                    &&& final(self).blocked(
                        contract.steps@[final(self).values@.len() as int],
                        error,
                    )
                },
            },
    {
        let ghost before = *self;
        let ghost steps = contract.steps@;
        let ghost from = self.values@.len() as int;
        let ghost calls = llvm::builder_calls(self.builder).len() as int;
        let ghost changes = llvm::module_calls(self.module).len() as int;
        while self.values.len() < contract.steps.len()
            invariant
                before == *old(self),
                from == before.values@.len(),
                calls == llvm::builder_calls(before.builder).len(),
                changes == llvm::module_calls(before.module).len(),
                contract.wf(),
                steps == contract.steps@,
                self.grew(before),
                self.remembers(before),
                self.tracks(steps),
                from <= self.values@.len(),
                self.did(steps, from, calls, changes),
                llvm::positioned(self.builder) == (llvm::positioned(before.builder) || (exists|
                    k: int,
                |
                    from <= k < self.values@.len() && #[trigger] steps[k] is PositionAtEnd)),
                llvm::builder_calls(self.builder).len() == calls + count_builds(
                    steps,
                    from,
                    self.values@.len() as int,
                ),
                llvm::module_calls(self.module).len() == changes + count_declares(
                    steps,
                    from,
                    self.values@.len() as int,
                ),
                fresh(
                    steps,
                    from,
                    self.values@.len() as int,
                    llvm::taken(before.module),
                ) ==> {
                    &&& self.holds_added(steps, from)
                    &&& forall|name: Seq<char>| #[trigger]
                        llvm::taken(self.module).contains(name) ==> llvm::taken(
                            before.module,
                        ).contains(name) || adds_name(
                            steps,
                            from,
                            self.values@.len() as int,
                            name,
                        )
                },
            decreases steps.len() - self.values@.len(),
        {
            let ghost earlier = *self;
            let next: usize = self.values.len();
            let step = contract.steps[next];
            if is_request(step) {
                return Ok(Progress::Request(next));
            }
            let done = self.perform(
                step,
                contract,
                Ghost(from),
                Ghost(calls),
                Ghost(changes),
            );
            proof {
                Self::lemma_grew_further(before, earlier, *self);
                if done is Ok {
                    Self::lemma_holds_added(before, earlier, *self, steps, from);
                }
            }
            match done {
                Ok(_) => {},
                Err(error) => {
                    return Err(error);
                },
            }
        }
        Ok(Progress::Done)
    }

    /// What grew twice grew.
    #[verifier::spinoff_prover]
    proof fn lemma_grew_further(first: Emitter<'ctx>, second: Emitter<'ctx>, third: Emitter<'ctx>)
        requires
            second.grew(first),
            second.remembers(first),
            third.grew(second),
            third.remembers(second),
        ensures
            third.grew(first),
            third.remembers(first),
    {
        assert forall|k: int| 0 <= k < first.values@.len() implies #[trigger] third.values@[k]
            == first.values@[k] by {
            assert(second.values@[k] == first.values@[k]);
        }
        assert forall|k: int| 0 <= k < first.blocks@.len() implies #[trigger] third.blocks@[k]
            == first.blocks@[k] by {
            assert(second.blocks@[k] == first.blocks@[k]);
        }
        assert forall|k: int| 0 <= k < first.added@.len() implies #[trigger] third.added@[k]
            == first.added@[k] by {
            assert(second.added@[k] == first.added@[k]);
        }
        assert(llvm::functions(first.module).submap_of(llvm::functions(third.module))) by {
            assert forall|name: Seq<char>| #[trigger]
                llvm::functions(first.module).dom().contains(name) implies llvm::functions(
                third.module,
            ).dom().contains(name) && llvm::functions(third.module)[name] == llvm::functions(
                first.module,
            )[name] by {
                assert(llvm::functions(second.module).dom().contains(name));
                assert(llvm::functions(second.module)[name] == llvm::functions(first.module)[name]);
                assert(llvm::functions(third.module).dom().contains(name));
                assert(llvm::functions(third.module)[name] == llvm::functions(second.module)[name]);
            }
        }
    }

    /// The functions that were added are there after one more step.
    proof fn lemma_holds_added(
        first: Emitter<'ctx>,
        second: Emitter<'ctx>,
        third: Emitter<'ctx>,
        steps: Seq<Step>,
        from: int,
    )
        requires
            0 <= from <= second.values@.len(),
            third.grew(second),
            third.values@.len() == second.values@.len() + 1,
            second.tracks(steps),
            third.added@.len() == second.added@.len() + 1,
            third.took_name(second, steps[second.values@.len() as int], third.added@.last()),
            fresh(steps, from, second.values@.len() as int, llvm::taken(first.module)) ==> {
                &&& second.holds_added(steps, from)
                &&& forall|name: Seq<char>| #[trigger]
                    llvm::taken(second.module).contains(name) ==> llvm::taken(
                        first.module,
                    ).contains(name) || adds_name(
                        steps,
                        from,
                        second.values@.len() as int,
                        name,
                    )
            },
        ensures
            fresh(steps, from, third.values@.len() as int, llvm::taken(first.module)) ==> {
                &&& third.holds_added(steps, from)
                &&& forall|name: Seq<char>| #[trigger]
                    llvm::taken(third.module).contains(name) ==> llvm::taken(
                        first.module,
                    ).contains(name) || adds_name(
                        steps,
                        from,
                        third.values@.len() as int,
                        name,
                    )
            },
    {
        let n = second.values@.len() as int;
        let taken = llvm::taken(first.module);
        if fresh(steps, from, n + 1, taken) {
            assert(fresh(steps, from, n, taken));
            if let Step::AddFunction { symbol, .. } = steps[n] {
                let name = symbol.spec_name()@;
                assert(!adds_name(steps, from, n, name)) by {
                    if adds_name(steps, from, n, name) {
                        let k = choose|k: int|
                            from <= k < n && (#[trigger] steps[k] matches Step::AddFunction {
                                symbol: s,
                                ..
                            } && s.spec_name()@ == name);
                        names_are_distinct(steps[k]->AddFunction_symbol, symbol);
                    }
                }
            }
            assert forall|k: int| from <= k < n + 1 implies (
            #[trigger] steps[k] matches Step::AddFunction { symbol, .. } ==> third.function(
                FunctionRef::Symbol(symbol),
            ) == third.added@[k]) by {
                if k < n {
                    assert(second.added@[k] is Some <==> steps[k] is AddFunction);
                    assert(third.added@[k] == second.added@[k]);
                }
            }
            assert forall|name: Seq<char>| #[trigger]
                llvm::taken(third.module).contains(name) implies taken.contains(name) || adds_name(
                steps,
                from,
                n + 1,
                name,
            ) by {
                if llvm::taken(second.module).contains(name) {
                    if adds_name(steps, from, n, name) {
                        let k = choose|k: int|
                            from <= k < n && (#[trigger] steps[k] matches Step::AddFunction {
                                symbol: s,
                                ..
                            } && s.spec_name()@ == name);
                        assert(from <= k < n + 1);
                    }
                } else {
                    assert(from <= n < n + 1);
                }
            }
        }
    }

    /// Takes what the compiler's work on the next step yielded. It is refused, and nothing
    /// changes, exactly when no step is left, the next one is not for the compiler, or the
    /// values are not those that the step yields.
    pub fn supply<'a>(&mut self, contract: &Contract<'a>, values: Vec<BasicValueEnum<'ctx>>) -> (r:
        Result<(), EmitError>)
        requires
            contract.wf(),
            old(self).tracks(contract.steps@),
        ensures
            r is Ok <==> {
                let next = old(self).values@.len() as int;
                &&& next < contract.steps@.len()
                &&& asks(contract.steps@[next])
                &&& fits(contract.steps@[next], values@)
            },
            match r {
                Ok(_) => {
                    &&& final(self).values@ == old(self).values@.push(values)
                    &&& final(self).blocks@ == old(self).blocks@.push(None)
                    &&& final(self).added@ == old(self).added@.push(None)
                    &&& final(self).grew(*old(self))
                    &&& final(self).tracks(contract.steps@)
                    &&& final(self).module == old(self).module
                    &&& final(self).builder == old(self).builder
                },
                Err(error) => error is UnexpectedReply && *final(self) == *old(self),
            },
    {
        let next: usize = self.values.len();
        if next < contract.steps.len() && is_request(contract.steps[next]) {
            proof {
                lemma_valid_kinds(*contract, next as int);
            }
            if all_fit(contract.steps[next], &values) {
                self.values.push(values);
                self.blocks.push(None);
                self.added.push(None);
                return Ok(());
            }
        }
        Err(EmitError::UnexpectedReply)
    }
}

/// The steps of a well-formed contract yield values of valid kinds.
proof fn lemma_valid_kinds<'a>(contract: Contract<'a>, k: int)
    requires
        contract.wf(),
        0 <= k < contract.steps@.len(),
    ensures
        forall|part: int|
            #[trigger] contract.steps@[k].yields(part) matches Some(kind) ==> kind.is_valid(),
    decreases k,
{
    let steps = contract.steps@;
    assert(contract.accepts(k, steps[k])) by {
        reveal(Contract::wf);
    }
    assert forall|j: int, part: int| 0 <= j < k implies (
    #[trigger] steps[j].yields(part) matches Some(kind) ==> kind.is_valid()) by {
        lemma_valid_kinds(contract, j);
    }
}

/// The value is one of the kind.
pub fn has_kind<'ctx>(value: BasicValueEnum<'ctx>, kind: Kind) -> (has: bool)
    requires
        kind.is_valid(),
    ensures
        has == kind.admits(llvm::value_kind(value)),
{
    match kind {
        Kind::Int(width) => match llvm::int_width(value) {
            Some(w) => w == width,
            None => false,
        },
        Kind::Pointer(Pointee::Int(width)) => llvm::is_pointer(value) && llvm::points_to(
            value,
            width,
        ),
        Kind::Pointer(Pointee::Other) => llvm::is_pointer(value),
        Kind::Other => true,
    }
}

/// The text starts with an integer type.
fn starts_with_integer(text: String) -> (starts: bool)
    ensures
        starts == llvm::returns_word(text@),
{
    let text = text.as_str();
    if text.unicode_len() < 2 {
        return false;
    }
    let digit = text.get_char(1);
    text.get_char(0) == 'i' && '0' <= digit && digit <= '9'
}

/// The step is for the compiler to carry out.
pub fn is_request(step: Step) -> (request: bool)
    ensures
        request == asks(step),
{
    match step {
        Step::Import { .. }
        | Step::Gep { .. }
        | Step::GlobalString { .. }
        | Step::EmitFunctions
        | Step::EmitInitializer
        | Step::Dispatch { .. }
        | Step::Internalize
        | Step::Wasm { .. }
        | Step::Decode { .. }
        | Step::DynamicLength { .. }
        | Step::EncodeTy { .. } => true,
        _ => false,
    }
}

/// The kinds of the values that a step for the compiler yields.
fn asked_kinds(step: Step) -> (kinds: Vec<Kind>)
    requires
        asks(step),
    ensures
        forall|part: int| #[trigger]
            step.yields(part) == if 0 <= part < kinds@.len() {
                Some(kinds@[part])
            } else {
                None
            },
{
    let mut kinds: Vec<Kind> = Vec::new();
    match step {
        Step::Import { kind } => {
            kinds.push(kind);
        },
        Step::Gep { pointer, .. } => {
            kinds.push(Kind::Pointer(pointer.pointee()));
        },
        Step::GlobalString { .. } => {
            kinds.push(Kind::Pointer(Pointee::Int(8)));
        },
        Step::DynamicLength { .. } => {
            kinds.push(Kind::Int(32));
        },
        Step::EncodeTy { data, offset, dynamic, .. } => {
            kinds.push(Kind::Pointer(data.pointee()));
            kinds.push(Kind::Int(offset.width()));
            kinds.push(Kind::Pointer(dynamic.pointee()));
        },
        Step::Decode { parameters, .. } => {
            while kinds.len() < parameters.len()
                invariant
                    kinds@.len() <= parameters@.len(),
                    forall|i: int| 0 <= i < kinds@.len() ==> #[trigger] kinds@[i] == Kind::Other,
                decreases parameters@.len() - kinds@.len(),
            {
                kinds.push(Kind::Other);
            }
        },
        _ => {},
    }
    kinds
}

/// The values are those that the step yields, in number and kind.
fn all_fit<'ctx>(step: Step, values: &Vec<BasicValueEnum<'ctx>>) -> (fit: bool)
    requires
        asks(step),
        forall|part: int|
            #[trigger] step.yields(part) matches Some(kind) ==> kind.is_valid(),
    ensures
        fit == fits(step, values@),
{
    let kinds = asked_kinds(step);
    if kinds.len() != values.len() {
        proof {
            let part: int = if kinds@.len() < values@.len() {
                kinds@.len() as int
            } else {
                values@.len() as int
            };
            assert(step.yields(part) is Some <==> part < kinds@.len());
        }
        return false;
    }
    assert forall|k: int| 0 <= k < kinds@.len() implies (#[trigger] kinds@[k]).is_valid() by {
        assert(step.yields(k) == Some(kinds@[k]));
    }
    let mut i: usize = 0;
    while i < kinds.len()
        invariant
            i <= kinds@.len(),
            kinds@.len() == values@.len(),
            forall|part: int| #[trigger]
                step.yields(part) == if 0 <= part < kinds@.len() {
                    Some(kinds@[part])
                } else {
                    None
                },
            forall|k: int|
                0 <= k < i ==> (#[trigger] kinds@[k]).admits(llvm::value_kind(values@[k])),
            forall|k: int| 0 <= k < kinds@.len() ==> (#[trigger] kinds@[k]).is_valid(),
        decreases kinds@.len() - i,
    {
        if !has_kind(values[i], kinds[i]) {
            assert(step.yields(i as int) == Some(kinds@[i as int]));
            return false;
        }
        i += 1;
    }
    true
}

/// LLVM takes the names of symbols as they are.
proof fn lemma_is_name(symbol: Symbol)
    ensures
        llvm::is_name(symbol.spec_name()@),
{
    match symbol {
        Symbol::Main => {
            reveal_strlit("main");
        },
        Symbol::StorageStore => {
            reveal_strlit("storageStore");
        },
        Symbol::StorageLoad => {
            reveal_strlit("storageLoad");
        },
        Symbol::GetCallDataSize => {
            reveal_strlit("getCallDataSize");
        },
        Symbol::GetCodeSize => {
            reveal_strlit("getCodeSize");
        },
        Symbol::GetReturnDataSize => {
            reveal_strlit("getReturnDataSize");
        },
        Symbol::CallDataCopy => {
            reveal_strlit("callDataCopy");
        },
        Symbol::CodeCopy => {
            reveal_strlit("codeCopy");
        },
        Symbol::ReturnDataCopy => {
            reveal_strlit("returnDataCopy");
        },
        Symbol::PrintMem => {
            reveal_strlit("printMem");
        },
        Symbol::Create => {
            reveal_strlit("create");
        },
        Symbol::Call => {
            reveal_strlit("call");
        },
        Symbol::Finish => {
            reveal_strlit("finish");
        },
        Symbol::Revert => {
            reveal_strlit("revert");
        },
        Symbol::InitHeap => {
            reveal_strlit("__init_heap");
        },
        Symbol::Malloc => {
            reveal_strlit("__malloc");
        },
        Symbol::Bzero8 => {
            reveal_strlit("__bzero8");
        },
        Symbol::Memcpy => {
            reveal_strlit("__memcpy");
        },
        Symbol::Sha3 => {
            reveal_strlit("sha3");
        },
    }
}

/// The kind of what the function has to return, where its callers need anything.
fn returned(callee: FunctionRef) -> (kind: Option<Kind>)
    ensures
        kind == (match callee {
            FunctionRef::Symbol(symbol) => symbol.ret(),
            _ => None,
        }),
{
    match callee {
        FunctionRef::Symbol(symbol) => match symbol {
            Symbol::GetCallDataSize
            | Symbol::GetCodeSize
            | Symbol::GetReturnDataSize
            | Symbol::Create
            | Symbol::Call => Some(Kind::Int(32)),
            Symbol::Malloc => Some(Kind::Pointer(Pointee::Int(8))),
            _ => None,
        },
        _ => None,
    }
}

/// What a call that yields one value yielded.
fn one<'ctx>(made: Result<BasicValueEnum<'ctx>, BuilderError>) -> (r: Result<
    Vec<BasicValueEnum<'ctx>>,
    EmitError,
>)
    ensures
        match made {
            Ok(value) => r matches Ok(results) && results@ == seq![value],
            Err(_) => r == Err::<Vec<BasicValueEnum<'ctx>>, EmitError>(EmitError::Unpositioned),
        },
{
    match made {
        Ok(value) => {
            let mut results: Vec<BasicValueEnum<'ctx>> = Vec::new();
            results.push(value);
            assert(results@ =~= seq![value]);
            Ok(results)
        },
        Err(_) => Err(EmitError::Unpositioned),
    }
}

/// What a call that yields nothing yielded.
fn none<'ctx>(made: Result<(), BuilderError>) -> (r: Result<
    Vec<BasicValueEnum<'ctx>>,
    EmitError,
>)
    ensures
        match made {
            Ok(_) => r matches Ok(results) && results@.len() == 0,
            Err(_) => r == Err::<Vec<BasicValueEnum<'ctx>>, EmitError>(EmitError::Unpositioned),
        },
{
    match made {
        Ok(_) => Ok(Vec::new()),
        Err(_) => Err(EmitError::Unpositioned),
    }
}

} // verus!
