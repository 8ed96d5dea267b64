//! A contract under emission: the steps taken so far and what they refer to.
use crate::code::{own_constructors, own_functions};
use crate::ir::{
    BlockRef, Operand, FunctionRef, IntOperand, Kind, List, Pointee, PointerOperand, Register,
    Step, Symbol, block_at, block_defined, int_at, int_defined, pointer_at,
    pointer_defined, valid_width, value_defined,
};
use crate::resolver;
use vstd::prelude::*;
use vstd::slice::slice_to_vec;

verus! {

/// Both integers are constants or yielded by the first `n` steps, and equally wide.
pub open spec fn alike(steps: Seq<Step>, n: int, lhs: IntOperand, rhs: IntOperand) -> bool {
    &&& int_defined(steps, n, lhs)
    &&& int_defined(steps, n, rhs)
    &&& lhs.spec_width() == rhs.spec_width()
}

/// How hard LLVM is to optimize.
#[derive(Clone, Copy, PartialEq, Eq, Structural, Debug)]
pub enum OptimizationLevel {
    Off,
    Less,
    Default,
    Aggressive,
}

/// A global byte string of the module.
#[derive(PartialEq, Eq, Debug)]
pub struct Global {
    pub name: String,
    pub data: Vec<u8>,
    pub constant: bool,
}

impl Global {
    /// The global has that name and those bytes.
    pub open spec fn is(self, name: Seq<char>, data: Seq<u8>, constant: bool) -> bool {
        self.name@ == name && self.data@ == data && self.constant == constant
    }
}

/// A contract under emission.
///
/// `contract`, `ns`, `filename`, `opt` and `runtime` are what it was made with.
/// `symbols` are the named functions that the module holds, `functions` and
/// `constructors` the contract's own functions once they are emitted, `globals` the
/// byte strings that the steps refer to, and `exports` the names that stay visible
/// after an `Internalize` step. `code_size` is the constant that stands for the size
/// of the deployed code until that size is known.
#[derive(Debug)]
pub struct Contract<'a> {
    pub contract: &'a resolver::Contract,
    pub ns: &'a resolver::Namespace,
    pub filename: &'a str,
    pub opt: OptimizationLevel,
    pub runtime: Option<Box<Contract<'a>>>,
    pub symbols: Vec<Symbol>,
    pub functions: Vec<FunctionRef>,
    pub constructors: Vec<FunctionRef>,
    pub globals: Vec<Global>,
    pub exports: Vec<&'static str>,
    pub code_size: Option<IntOperand>,
    pub steps: Vec<Step<'a>>,
}

impl<'a> Contract<'a> {
    /// The module holds the symbol.
    pub open spec fn has(self, symbol: Symbol) -> bool {
        self.symbols@.contains(symbol)
    }

    /// The number of the next step.
    pub open spec fn next(self) -> int {
        self.steps@.len() as int
    }

    /// The integer is a constant, or a step yields it.
    pub open spec fn int_defined(self, value: IntOperand) -> bool {
        int_defined(self.steps@, self.steps@.len() as int, value)
    }

    /// The pointer is null, or a step yields it.
    pub open spec fn pointer_defined(self, value: PointerOperand) -> bool {
        pointer_defined(self.steps@, self.steps@.len() as int, value)
    }

    /// The value is a constant, or a step yields it.
    pub open spec fn value_defined(self, value: Operand) -> bool {
        value_defined(self.steps@, self.steps@.len() as int, value)
    }

    /// A step appended the block.
    pub open spec fn block_defined(self, block: BlockRef) -> bool {
        block_defined(self.steps@, self.steps@.len() as int, block)
    }

    /// The function exists once the first `n` steps are taken.
    pub open spec fn function_defined(self, n: int, function: FunctionRef) -> bool {
        match function {
            FunctionRef::Symbol(symbol) => self.has(symbol),
            FunctionRef::Added(step) => step < n && self.steps@[step as int] is AddFunction,
            FunctionRef::Initializer(step) => step < n
                && self.steps@[step as int] is EmitInitializer,
            FunctionRef::Constructor(i) => i < self.constructors@.len(),
            FunctionRef::Function(i) => i < self.functions@.len(),
            FunctionRef::Enclosing => true,
        }
    }

    /// Whatever the step refers to exists once the first `n` steps are taken.
    pub open spec fn accepts(self, n: int, step: Step<'a>) -> bool {
        let steps = self.steps@;
        match step {
            Step::Import { kind } => kind.is_valid(),
            Step::AddFunction { symbol, ret, params, .. } => {
                &&& self.has(symbol)
                &&& ret matches Some(kind) ==> kind.is_plain()
                &&& forall|i: int| 0 <= i < params@.len() ==> (#[trigger] params@[i]).is_plain()
            },
            Step::SetNoReturn { declaration } => self.function_defined(
                n,
                FunctionRef::Added(declaration),
            ),
            Step::AppendBlock { function, .. } => self.function_defined(n, function),
            Step::PositionAtEnd { block } => block_defined(steps, n, block),
            Step::Call { callee, args, .. } => {
                &&& self.function_defined(n, callee)
                &&& forall|i: int|
                    0 <= i < args@.len() ==> value_defined(steps, n, #[trigger] args@[i])
            },
            Step::CallDecoded { callee, decode } => {
                &&& self.function_defined(n, callee)
                &&& decode < n
                &&& steps[decode as int] is Decode
            },
            Step::IntAdd { lhs, rhs } => alike(steps, n, lhs, rhs),
            Step::IntSub { lhs, rhs } => alike(steps, n, lhs, rhs),
            Step::IntUnsignedDiv { lhs, rhs } => alike(steps, n, lhs, rhs),
            Step::IntEqual { lhs, rhs, .. } => alike(steps, n, lhs, rhs),
            Step::PointerCast { pointer, width, .. } => pointer_defined(steps, n, pointer)
                && valid_width(width),
            Step::PointerCastLike { pointer, like, .. } => pointer_defined(steps, n, pointer)
                && pointer_defined(steps, n, like),
            Step::Alloca { width, .. } => valid_width(width),
            Step::ArrayAlloca { width, count, .. } => int_defined(steps, n, count)
                && valid_width(width),
            Step::Load { pointer, width, .. } => pointer_defined(steps, n, pointer)
                && pointer.spec_pointee() == Pointee::Int(width),
            Step::Store { pointer, value } => {
                &&& pointer_defined(steps, n, pointer)
                &&& int_defined(steps, n, value)
                &&& pointer.spec_pointee() == Pointee::Int(value.spec_width())
            },
            Step::Gep { pointer, index } => pointer_defined(steps, n, pointer) && int_defined(
                steps,
                n,
                index,
            ),
            Step::CondBranch { condition, then_block, else_block } => {
                &&& int_defined(steps, n, condition)
                &&& condition.spec_width() == 1
                &&& block_defined(steps, n, then_block)
                &&& block_defined(steps, n, else_block)
            },
            Step::Return { value } => int_defined(steps, n, value),
            Step::Unreachable => true,
            Step::GlobalString { global } => global < self.globals@.len(),
            Step::EmitFunctions => true,
            Step::EmitInitializer => true,
            Step::Dispatch { emitted, data, length, function, fallback, .. } => {
                &&& emitted <= self.functions@.len()
                &&& pointer_defined(steps, n, data)
                &&& int_defined(steps, n, length)
                &&& self.function_defined(n, function)
                &&& block_defined(steps, n, fallback)
            },
            Step::Internalize => true,
            Step::Wasm { .. } => true,
            Step::Decode { function, data, length, .. } => {
                &&& self.function_defined(n, function)
                &&& pointer_defined(steps, n, data)
                &&& int_defined(steps, n, length)
            },
            Step::DynamicLength { arg, function, .. } => value_defined(steps, n, arg)
                && self.function_defined(n, function),
            Step::EncodeTy { function, arg, data, offset, dynamic, .. } => {
                &&& self.function_defined(n, function)
                &&& value_defined(steps, n, arg)
                &&& pointer_defined(steps, n, data)
                &&& int_defined(steps, n, offset)
                &&& pointer_defined(steps, n, dynamic)
            },
        }
    }

    /// The contract's functions and constructors are listed by their numbers.
    pub open spec fn listed(self) -> bool {
        &&& forall|i: int|
            0 <= i < self.functions@.len() ==> #[trigger] self.functions@[i]
                == FunctionRef::Function(i as usize)
        &&& forall|i: int|
            0 <= i < self.constructors@.len() ==> #[trigger] self.constructors@[i]
                == FunctionRef::Constructor(i as usize)
    }

    /// Every step refers only to functions that the module holds and to values and
    /// blocks of earlier steps.
    #[verifier::opaque]
    pub open spec fn wf(self) -> bool {
        &&& self.listed()
        &&& forall|i: int|
            0 <= i < self.steps@.len() ==> self.accepts(i, #[trigger] self.steps@[i])
    }

    /// What the contract is made for, and its own functions, are as they were.
    pub open spec fn same_frame(self, before: Contract<'a>) -> bool {
        &&& self.contract == before.contract
        &&& self.ns == before.ns
        &&& self.filename == before.filename
        &&& self.opt == before.opt
        &&& self.runtime == before.runtime
        &&& self.functions == before.functions
        &&& self.constructors == before.constructors
        &&& self.exports == before.exports
    }

    /// Everything but the steps is as it was.
    pub open spec fn same_but_steps(self, before: Contract<'a>) -> bool {
        &&& self.same_frame(before)
        &&& self.symbols == before.symbols
        &&& self.globals == before.globals
        &&& self.code_size == before.code_size
    }

    /// The contract is as it was, with `steps` taken after the earlier ones.
    pub open spec fn took(self, before: Contract<'a>, steps: Seq<Step<'a>>) -> bool {
        &&& self.steps@ == before.steps@ + steps
        &&& self.same_but_steps(before)
        &&& self.wf()
    }

    /// The contract is as it was, with `step` taken after the earlier ones.
    pub open spec fn took_one(self, before: Contract<'a>, step: Step<'a>) -> bool {
        &&& self.steps@ == before.steps@.push(step)
        &&& self.same_but_steps(before)
        &&& self.wf()
    }

    /// Earlier steps and functions are still there.
    pub open spec fn extends(self, before: Contract<'a>) -> bool {
        &&& before.steps@.len() <= self.steps@.len()
        &&& forall|i: int|
            0 <= i < before.steps@.len() ==> #[trigger] self.steps@[i] == before.steps@[i]
        &&& forall|s: Symbol| before.has(s) ==> self.has(s)
        &&& before.functions@.len() <= self.functions@.len()
        &&& before.constructors@.len() <= self.constructors@.len()
    }

    /// What the first steps referred to is still there after more steps.
    proof fn lemma_accepts_grows(self, grown: Contract<'a>, n: int, step: Step<'a>)
        requires
            0 <= n <= self.steps@.len() <= grown.steps@.len(),
            self.accepts(n, step),
            forall|i: int| 0 <= i < self.steps@.len() ==> self.steps@[i] == grown.steps@[i],
            forall|s: Symbol| self.has(s) ==> grown.has(s),
            self.functions@.len() <= grown.functions@.len(),
            self.constructors@.len() <= grown.constructors@.len(),
            self.globals@.len() <= grown.globals@.len(),
        ensures
            grown.accepts(n, step),
    {
    }

    /// A well-formed contract stays so when it takes one more step that it accepts,
    /// whatever functions and globals are added with it.
    proof fn lemma_wf_grows(self, grown: Contract<'a>, step: Step<'a>)
        requires
            self.wf(),
            grown.steps@ == self.steps@.push(step),
            grown.accepts(self.steps@.len() as int, step),
            grown.listed() || {
                &&& grown.functions == self.functions
                &&& grown.constructors == self.constructors
            },
            forall|s: Symbol| self.has(s) ==> grown.has(s),
            self.functions@.len() <= grown.functions@.len(),
            self.constructors@.len() <= grown.constructors@.len(),
            self.globals@.len() <= grown.globals@.len(),
        ensures
            grown.wf(),
    {
        reveal(Contract::wf);
        assert forall|i: int| 0 <= i < grown.steps@.len() implies grown.accepts(
            i,
            #[trigger] grown.steps@[i],
        ) by {
            if i < self.steps@.len() {
                assert(self.accepts(i, self.steps@[i]));
                self.lemma_accepts_grows(grown, i, grown.steps@[i]);
            }
        }
    }

    /// A contract with no steps yet. `symbols` are the functions of the runtime library
    /// that every module holds.
    pub fn new(
        contract: &'a resolver::Contract,
        ns: &'a resolver::Namespace,
        filename: &'a str,
        opt: OptimizationLevel,
        runtime: Option<Box<Contract<'a>>>,
        symbols: Vec<Symbol>,
    ) -> (result: Contract<'a>)
        ensures
            result.wf(),
            result.contract == contract,
            result.ns == ns,
            result.filename == filename,
            result.opt == opt,
            result.runtime == runtime,
            result.symbols == symbols,
            result.functions@ == Seq::<FunctionRef>::empty(),
            result.constructors@ == Seq::<FunctionRef>::empty(),
            result.globals@ == Seq::<Global>::empty(),
            result.exports@ == Seq::<&'static str>::empty(),
            result.code_size is None,
            result.steps@ == Seq::<Step<'a>>::empty(),
    {
        proof {
            reveal(Contract::wf);
        }
        Contract {
            contract,
            ns,
            filename,
            opt,
            runtime,
            symbols,
            functions: Vec::new(),
            constructors: Vec::new(),
            globals: Vec::new(),
            exports: Vec::new(),
            code_size: None,
            steps: Vec::new(),
        }
    }

    /// Adds a function to the module.
    pub(crate) fn add_function(
        &mut self,
        symbol: Symbol,
        ret: Option<Kind>,
        params: List<Kind>,
        external: bool,
    ) -> (function: FunctionRef)
        requires
            old(self).wf(),
            ret matches Some(kind) ==> kind.is_plain(),
            forall|i: int| 0 <= i < params@.len() ==> (#[trigger] params@[i]).is_plain(),
        ensures
            final(self).wf(),
            final(self).same_frame(*old(self)),
            final(self).globals == old(self).globals,
            final(self).code_size == old(self).code_size,
            final(self).symbols@ == old(self).symbols@.push(symbol),
            final(self).steps@ == old(self).steps@.push(
                Step::AddFunction { symbol, ret, params, external },
            ),
            function == FunctionRef::Added(old(self).next() as usize),
            final(self).function_defined(final(self).next(), function),
            old(self).next() <= usize::MAX,
    {
        let ghost before = *self;
        let step: usize = self.steps.len();
        self.symbols.push(symbol);
        self.steps.push(Step::AddFunction { symbol, ret, params, external });
        proof {
            assert forall|s: Symbol| before.has(s) implies self.has(s) by {
                let i = choose|i: int| 0 <= i < before.symbols@.len() && before.symbols@[i] == s;
                assert(self.symbols@[i] == s);
            }
            assert(self.symbols@.last() == symbol);
            before.lemma_wf_grows(*self, Step::AddFunction { symbol, ret, params, external });
        }
        FunctionRef::Added(step)
    }

    /// Marks the function that the step added as one that does not return.
    pub(crate) fn set_no_return(&mut self, declaration: usize)
        requires
            old(self).wf(),
            old(self).function_defined(old(self).next(), FunctionRef::Added(declaration)),
        ensures
            final(self).took_one(*old(self), Step::SetNoReturn { declaration }),
    {
        self.take(Step::SetNoReturn { declaration });
    }

    /// Asks for the contract's constructors and functions.
    pub(crate) fn emit_functions(&mut self)
        requires
            old(self).wf(),
            old(self).functions@.len() == 0,
            old(self).constructors@.len() == 0,
        ensures
            final(self).wf(),
            final(self).contract == old(self).contract,
            final(self).ns == old(self).ns,
            final(self).filename == old(self).filename,
            final(self).opt == old(self).opt,
            final(self).runtime == old(self).runtime,
            final(self).exports == old(self).exports,
            final(self).symbols == old(self).symbols,
            final(self).globals == old(self).globals,
            final(self).code_size == old(self).code_size,
            final(self).functions_emitted(),
            final(self).steps@ == old(self).steps@.push(Step::EmitFunctions),
    {
        let ghost before = *self;
        let count: usize = self.contract.functions.len();
        let mut i: usize = 0;
        while i < count
            invariant
                count == self.contract.functions@.len(),
                self.functions@ == Seq::new(
                    i as nat,
                    |k: int| FunctionRef::Function(k as usize),
                ),
                i <= count,
                *self == (Contract { functions: self.functions, ..before }),
            decreases count - i,
        {
            self.functions.push(FunctionRef::Function(i));
            i += 1;
        }
        let count: usize = self.contract.constructors.len();
        let mut i: usize = 0;
        while i < count
            invariant
                count == self.contract.constructors@.len(),
                self.functions@ == Seq::new(
                    self.contract.functions@.len(),
                    |k: int| FunctionRef::Function(k as usize),
                ),
                self.constructors@ == Seq::new(
                    i as nat,
                    |k: int| FunctionRef::Constructor(k as usize),
                ),
                i <= count,
                *self == (Contract {
                    functions: self.functions,
                    constructors: self.constructors,
                    ..before
                }),
            decreases count - i,
        {
            self.constructors.push(FunctionRef::Constructor(i));
            i += 1;
        }
        self.steps.push(Step::EmitFunctions);
        proof {
            before.lemma_wf_grows(*self, Step::EmitFunctions);
        }
    }

    /// The contract's functions and constructors are all emitted.
    pub open spec fn functions_emitted(self) -> bool {
        &&& self.functions@ == own_functions(self.contract)
        &&& self.constructors@ == own_constructors(self.contract)
    }

    /// Adds a byte string to the module and points to its first byte.
    pub(crate) fn emit_global_string(&mut self, name: String, data: &[u8], constant: bool) -> (value:
        PointerOperand)
        requires
            old(self).wf(),
        ensures
            final(self).wf(),
            final(self).same_frame(*old(self)),
            final(self).symbols == old(self).symbols,
            final(self).code_size == old(self).code_size,
            final(self).globals_extend(*old(self), 1),
            final(self).globals@.last().is(name@, data@, constant),
            final(self).steps@ == old(self).steps@.push(
                Step::GlobalString { global: old(self).globals@.len() as usize },
            ),
            value == pointer_at(old(self).next(), 8),
            final(self).pointer_defined(value),
    {
        let ghost before = *self;
        let step: usize = self.steps.len();
        let global: usize = self.globals.len();
        self.globals.push(Global { name, data: slice_to_vec(data), constant });
        self.steps.push(Step::GlobalString { global });
        proof {
            before.lemma_wf_grows(*self, Step::GlobalString { global });
            assert(self.globals@.take(before.globals@.len() as int) =~= before.globals@);
        }
        PointerOperand::Register { register: Register { step, part: 0 }, pointee: Pointee::Int(8) }
    }

    /// The globals are as they were, with `count` more after them.
    pub open spec fn globals_extend(self, before: Contract<'a>, count: nat) -> bool {
        &&& self.globals@.len() == before.globals@.len() + count
        &&& self.globals@.take(before.globals@.len() as int) == before.globals@
    }

    /// Makes every function internal but those with the given names.
    pub(crate) fn internalize(&mut self, exports: Vec<&'static str>)
        requires
            old(self).wf(),
        ensures
            final(self).wf(),
            final(self).contract == old(self).contract,
            final(self).ns == old(self).ns,
            final(self).filename == old(self).filename,
            final(self).opt == old(self).opt,
            final(self).runtime == old(self).runtime,
            final(self).functions == old(self).functions,
            final(self).constructors == old(self).constructors,
            final(self).symbols == old(self).symbols,
            final(self).globals == old(self).globals,
            final(self).code_size == old(self).code_size,
            final(self).exports == exports,
            final(self).steps@ == old(self).steps@.push(Step::Internalize),
    {
        let ghost before = *self;
        self.exports = exports;
        self.steps.push(Step::Internalize);
        proof {
            before.lemma_wf_grows(*self, Step::Internalize);
        }
    }

    /// Asks for the module as wasm.
    pub(crate) fn wasm(&mut self, linking: bool)
        requires
            old(self).wf(),
        ensures
            final(self).took_one(*old(self), Step::Wasm { linking }),
    {
        self.take(Step::Wasm { linking });
    }

    /// Records the constant that stands for the size of the deployed code.
    pub(crate) fn set_code_size(&mut self, code_size: IntOperand)
        requires
            old(self).wf(),
        ensures
            final(self).wf(),
            final(self).same_frame(*old(self)),
            final(self).symbols == old(self).symbols,
            final(self).globals == old(self).globals,
            final(self).steps == old(self).steps,
            final(self).code_size == Some(code_size),
    {
        let ghost before = *self;
        self.code_size = Some(code_size);
        proof {
            reveal(Contract::wf);
            assert forall|i: int| 0 <= i < self.steps@.len() implies self.accepts(
                i,
                #[trigger] self.steps@[i],
            ) by {
                before.lemma_accepts_grows(*self, i, self.steps@[i]);
            }
        }
    }

    /// Takes a step.
    fn take(&mut self, step: Step<'a>)
        requires
            old(self).wf(),
            old(self).accepts(old(self).next(), step),
        ensures
            final(self).took_one(*old(self), step),
    {
        let ghost before = *self;
        self.steps.push(step);
        proof {
            before.lemma_accepts_grows(*self, before.steps@.len() as int, step);
            before.lemma_wf_grows(*self, step);
        }
    }

    /// Appends a block to the function.
    pub(crate) fn append_basic_block(
        &mut self,
        function: FunctionRef,
        name: &'static str,
    ) -> (block: BlockRef)
        requires
            old(self).wf(),
            old(self).function_defined(old(self).next(), function),
        ensures
            final(self).took_one(*old(self), Step::AppendBlock { function, name }),
            block == block_at(old(self).next()),
            final(self).block_defined(block),
    {
        let step: usize = self.steps.len();
        self.take(Step::AppendBlock { function, name });
        BlockRef { step }
    }

    /// Goes on at the end of the block.
    pub(crate) fn position_at_end(&mut self, block: BlockRef)
        requires
            old(self).wf(),
            old(self).block_defined(block),
        ensures
            final(self).took_one(*old(self), Step::PositionAtEnd { block }),
    {
        self.take(Step::PositionAtEnd { block });
    }

    /// Calls a function for its effect.
    pub(crate) fn build_call(&mut self, callee: FunctionRef, args: List<Operand>)
        requires
            old(self).wf(),
            old(self).function_defined(old(self).next(), callee),
            forall|i: int|
                0 <= i < args@.len() ==> old(self).value_defined(#[trigger] args@[i]),
        ensures
            final(self).took_one(*old(self), Step::Call { callee, args, name: "" }),
    {
        self.take(Step::Call { callee, args, name: "" });
    }

    /// Calls a function that returns an integer of 32 bits.
    pub(crate) fn build_int_call(
        &mut self,
        symbol: Symbol,
        args: List<Operand>,
        name: &'static str,
    ) -> (value: IntOperand)
        requires
            old(self).wf(),
            old(self).has(symbol),
            forall|i: int|
                0 <= i < args@.len() ==> old(self).value_defined(#[trigger] args@[i]),
            symbol.ret() == Some(Kind::Int(32)),
        ensures
            final(self).took_one(
                *old(self),
                Step::Call { callee: FunctionRef::Symbol(symbol), args, name },
            ),
            value == int_at(old(self).next(), 32),
            final(self).int_defined(value),
    {
        let step: usize = self.steps.len();
        self.take(Step::Call { callee: FunctionRef::Symbol(symbol), args, name });
        IntOperand::Register { register: Register { step, part: 0 }, width: 32 }
    }

    /// Calls a function that returns a pointer to bytes.
    pub(crate) fn build_pointer_call(
        &mut self,
        symbol: Symbol,
        args: List<Operand>,
    ) -> (value: PointerOperand)
        requires
            old(self).wf(),
            old(self).has(symbol),
            forall|i: int|
                0 <= i < args@.len() ==> old(self).value_defined(#[trigger] args@[i]),
            symbol.ret() == Some(Kind::Pointer(Pointee::Int(8))),
        ensures
            final(self).took_one(
                *old(self),
                Step::Call { callee: FunctionRef::Symbol(symbol), args, name: "" },
            ),
            value == pointer_at(old(self).next(), 8),
            final(self).pointer_defined(value),
    {
        let step: usize = self.steps.len();
        self.take(Step::Call { callee: FunctionRef::Symbol(symbol), args, name: "" });
        PointerOperand::Register { register: Register { step, part: 0 }, pointee: Pointee::Int(8) }
    }

    /// Calls a function with the values that step `decode` yielded.
    pub(crate) fn build_decoded_call(&mut self, callee: FunctionRef, decode: usize)
        requires
            old(self).wf(),
            old(self).function_defined(old(self).next(), callee),
            decode < old(self).steps@.len(),
            old(self).steps@[decode as int] is Decode,
        ensures
            final(self).took_one(*old(self), Step::CallDecoded { callee, decode }),
    {
        self.take(Step::CallDecoded { callee, decode });
    }

    /// Adds. Both integers have 32 bits.
    pub(crate) fn build_int_add(&mut self, lhs: IntOperand, rhs: IntOperand) -> (value: IntOperand)
        requires
            old(self).wf(),
            old(self).int_defined(lhs),
            old(self).int_defined(rhs),
            lhs.spec_width() == 32,
            rhs.spec_width() == 32,
        ensures
            final(self).took_one(*old(self), Step::IntAdd { lhs, rhs }),
            value == int_at(old(self).next(), 32),
            final(self).int_defined(value),
    {
        let step: usize = self.steps.len();
        self.take(Step::IntAdd { lhs, rhs });
        IntOperand::Register { register: Register { step, part: 0 }, width: 32 }
    }

    /// Subtracts. Both integers have 32 bits.
    pub(crate) fn build_int_sub(&mut self, lhs: IntOperand, rhs: IntOperand) -> (value: IntOperand)
        requires
            old(self).wf(),
            old(self).int_defined(lhs),
            old(self).int_defined(rhs),
            lhs.spec_width() == 32,
            rhs.spec_width() == 32,
        ensures
            final(self).took_one(*old(self), Step::IntSub { lhs, rhs }),
            value == int_at(old(self).next(), 32),
            final(self).int_defined(value),
    {
        let step: usize = self.steps.len();
        self.take(Step::IntSub { lhs, rhs });
        IntOperand::Register { register: Register { step, part: 0 }, width: 32 }
    }

    /// Divides without sign. Both integers have 32 bits.
    pub(crate) fn build_int_unsigned_div(
        &mut self,
        lhs: IntOperand,
        rhs: IntOperand,
    ) -> (value: IntOperand)
        requires
            old(self).wf(),
            old(self).int_defined(lhs),
            old(self).int_defined(rhs),
            lhs.spec_width() == 32,
            rhs.spec_width() == 32,
        ensures
            final(self).took_one(*old(self), Step::IntUnsignedDiv { lhs, rhs }),
            value == int_at(old(self).next(), 32),
            final(self).int_defined(value),
    {
        let step: usize = self.steps.len();
        self.take(Step::IntUnsignedDiv { lhs, rhs });
        IntOperand::Register { register: Register { step, part: 0 }, width: 32 }
    }

    /// Compares for equality.
    pub(crate) fn build_int_equal(
        &mut self,
        lhs: IntOperand,
        rhs: IntOperand,
        name: &'static str,
    ) -> (value: IntOperand)
        requires
            old(self).wf(),
            old(self).int_defined(lhs),
            old(self).int_defined(rhs),
            lhs.spec_width() == rhs.spec_width(),
        ensures
            final(self).took_one(*old(self), Step::IntEqual { lhs, rhs, name }),
            value == int_at(old(self).next(), 1),
            final(self).int_defined(value),
    {
        let step: usize = self.steps.len();
        self.take(Step::IntEqual { lhs, rhs, name });
        IntOperand::Register { register: Register { step, part: 0 }, width: 1 }
    }

    /// Casts a pointer to a pointer to integers of `width` bits.
    pub(crate) fn build_pointer_cast(
        &mut self,
        pointer: PointerOperand,
        width: u32,
        name: &'static str,
    ) -> (value: PointerOperand)
        requires
            old(self).wf(),
            valid_width(width),
            old(self).pointer_defined(pointer),
        ensures
            final(self).took_one(*old(self), Step::PointerCast { pointer, width, name }),
            value == pointer_at(old(self).next(), width),
            final(self).pointer_defined(value),
    {
        let step: usize = self.steps.len();
        self.take(Step::PointerCast { pointer, width, name });
        PointerOperand::Register { register: Register { step, part: 0 }, pointee: Pointee::Int(width) }
    }

    /// Casts a pointer to the type of another pointer.
    pub(crate) fn build_pointer_cast_like(
        &mut self,
        pointer: PointerOperand,
        like: PointerOperand,
        name: &'static str,
    ) -> (value: PointerOperand)
        requires
            old(self).wf(),
            old(self).pointer_defined(pointer),
            old(self).pointer_defined(like),
        ensures
            final(self).took_one(*old(self), Step::PointerCastLike { pointer, like, name }),
            value == (PointerOperand::Register {
                register: Register { step: old(self).next() as usize, part: 0 },
                pointee: like.spec_pointee(),
            }),
            final(self).pointer_defined(value),
    {
        let step: usize = self.steps.len();
        self.take(Step::PointerCastLike { pointer, like, name });
        PointerOperand::Register { register: Register { step, part: 0 }, pointee: like.pointee() }
    }

    /// Reserves stack space for an integer of `width` bits.
    pub(crate) fn build_alloca(&mut self, width: u32, name: &'static str) -> (value: PointerOperand)
        requires
            old(self).wf(),
            valid_width(width),
        ensures
            final(self).took_one(*old(self), Step::Alloca { width, name }),
            value == pointer_at(old(self).next(), width),
            final(self).pointer_defined(value),
    {
        let step: usize = self.steps.len();
        self.take(Step::Alloca { width, name });
        PointerOperand::Register { register: Register { step, part: 0 }, pointee: Pointee::Int(width) }
    }

    /// Reserves stack space for `count` integers of `width` bits.
    pub(crate) fn build_array_alloca(
        &mut self,
        width: u32,
        count: IntOperand,
        name: &'static str,
    ) -> (value: PointerOperand)
        requires
            old(self).wf(),
            valid_width(width),
            old(self).int_defined(count),
        ensures
            final(self).took_one(*old(self), Step::ArrayAlloca { width, count, name }),
            value == pointer_at(old(self).next(), width),
            final(self).pointer_defined(value),
    {
        let step: usize = self.steps.len();
        self.take(Step::ArrayAlloca { width, count, name });
        PointerOperand::Register { register: Register { step, part: 0 }, pointee: Pointee::Int(width) }
    }

    /// Loads the integer of `width` bits that the pointer points to.
    pub(crate) fn build_load(
        &mut self,
        pointer: PointerOperand,
        width: u32,
        name: &'static str,
    ) -> (value: IntOperand)
        requires
            old(self).wf(),
            old(self).pointer_defined(pointer),
            pointer.spec_pointee() == Pointee::Int(width),
        ensures
            final(self).took_one(*old(self), Step::Load { pointer, width, name }),
            value == int_at(old(self).next(), width),
            final(self).int_defined(value),
    {
        let step: usize = self.steps.len();
        self.take(Step::Load { pointer, width, name });
        IntOperand::Register { register: Register { step, part: 0 }, width: width }
    }

    /// Stores the integer where the pointer points.
    pub(crate) fn build_store(&mut self, pointer: PointerOperand, value: IntOperand)
        requires
            old(self).wf(),
            old(self).pointer_defined(pointer),
            old(self).int_defined(value),
            pointer.spec_pointee() == Pointee::Int(value.spec_width()),
        ensures
            final(self).took_one(*old(self), Step::Store { pointer, value }),
    {
        self.take(Step::Store { pointer, value });
    }

    /// The address `index` bytes past the pointer.
    pub(crate) fn build_gep(
        &mut self,
        pointer: PointerOperand,
        index: IntOperand,
    ) -> (value: PointerOperand)
        requires
            old(self).wf(),
            old(self).pointer_defined(pointer),
            old(self).int_defined(index),
            pointer.spec_pointee() == Pointee::Int(8),
        ensures
            final(self).took_one(*old(self), Step::Gep { pointer, index }),
            value == pointer_at(old(self).next(), 8),
            final(self).pointer_defined(value),
    {
        let step: usize = self.steps.len();
        self.take(Step::Gep { pointer, index });
        PointerOperand::Register { register: Register { step, part: 0 }, pointee: Pointee::Int(8) }
    }

    /// Branches on the condition.
    pub(crate) fn build_conditional_branch(
        &mut self,
        condition: IntOperand,
        then_block: BlockRef,
        else_block: BlockRef,
    )
        requires
            old(self).wf(),
            old(self).int_defined(condition),
            condition.spec_width() == 1,
            old(self).block_defined(then_block),
            old(self).block_defined(else_block),
        ensures
            final(self).took_one(
                *old(self),
                Step::CondBranch { condition, then_block, else_block },
            ),
    {
        self.take(Step::CondBranch { condition, then_block, else_block });
    }

    /// Returns the integer.
    pub(crate) fn build_return(&mut self, value: IntOperand)
        requires
            old(self).wf(),
            old(self).int_defined(value),
        ensures
            final(self).took_one(*old(self), Step::Return { value }),
    {
        self.take(Step::Return { value });
    }

    /// Ends the block where control never comes.
    pub(crate) fn build_unreachable(&mut self)
        requires
            old(self).wf(),
        ensures
            final(self).took_one(*old(self), Step::Unreachable),
    {
        self.take(Step::Unreachable);
    }

    /// Asks for the function that initializes the storage variables.
    pub(crate) fn emit_initializer(&mut self) -> (function: FunctionRef)
        requires
            old(self).wf(),
        ensures
            final(self).took_one(*old(self), Step::EmitInitializer),
            function == FunctionRef::Initializer(old(self).steps@.len() as usize),
            old(self).next() <= usize::MAX,
    {
        let step: usize = self.steps.len();
        self.take(Step::EmitInitializer);
        FunctionRef::Initializer(step)
    }

    /// Asks for the dispatch on the function selector: the contract's functions, with
    /// `fallback` for call data that fits none of them.
    pub(crate) fn emit_function_dispatch(
        &mut self,
        data: PointerOperand,
        length: IntOperand,
        function: FunctionRef,
        fallback: BlockRef,
    )
        requires
            old(self).wf(),
            old(self).pointer_defined(data),
            old(self).int_defined(length),
            old(self).function_defined(old(self).next(), function),
            old(self).block_defined(fallback),
        ensures
            final(self).took_one(
                *old(self),
                Step::Dispatch {
                    functions: &old(self).contract.functions,
                    emitted: old(self).functions@.len() as usize,
                    data,
                    length,
                    function,
                    fallback,
                },
            ),
    {
        let functions = &self.contract.functions;
        let emitted: usize = self.functions.len();
        self.take(Step::Dispatch { functions, emitted, data, length, function, fallback });
    }

    /// Asks for the number of bytes that the argument takes in the dynamic part of an
    /// ABI encoding.
    pub(crate) fn dynamic_length(
        &mut self,
        arg: Operand,
        load: bool,
        ty: resolver::Type,
        function: FunctionRef,
    ) -> (value: IntOperand)
        requires
            old(self).wf(),
            old(self).value_defined(arg),
            old(self).function_defined(old(self).next(), function),
        ensures
            final(self).took_one(*old(self), Step::DynamicLength { arg, load, ty, function }),
            value == int_at(old(self).next(), 32),
            final(self).int_defined(value),
    {
        let step: usize = self.steps.len();
        self.take(Step::DynamicLength { arg, load, ty, function });
        IntOperand::Register { register: Register { step, part: 0 }, width: 32 }
    }

    /// Asks for the ABI encoding of the argument.
    pub(crate) fn encode_ty(
        &mut self,
        load: bool,
        function: FunctionRef,
        ty: resolver::Type,
        arg: Operand,
        at: (PointerOperand, IntOperand, PointerOperand),
    ) -> (step: usize)
        requires
            old(self).wf(),
            old(self).value_defined(arg),
            old(self).function_defined(old(self).next(), function),
            old(self).pointer_defined(at.0),
            old(self).int_defined(at.1),
            old(self).pointer_defined(at.2),
        ensures
            final(self).took_one(
                *old(self),
                Step::EncodeTy {
                    load,
                    function,
                    ty,
                    arg,
                    data: at.0,
                    offset: at.1,
                    dynamic: at.2,
                },
            ),
            step == old(self).steps@.len(),
    {
        let step: usize = self.steps.len();
        self.take(
            Step::EncodeTy {
                load,
                function,
                ty,
                arg,
                data: at.0,
                offset: at.1,
                dynamic: at.2,
            },
        );
        step
    }

    /// Asks for one ABI-decoded value for each parameter.
    pub(crate) fn decode(
        &mut self,
        function: FunctionRef,
        data: PointerOperand,
        length: IntOperand,
        parameters: &'a Vec<resolver::Parameter>,
    ) -> (step: usize)
        requires
            old(self).wf(),
            old(self).function_defined(old(self).next(), function),
            old(self).pointer_defined(data),
            old(self).int_defined(length),
        ensures
            final(self).took_one(
                *old(self),
                Step::Decode { function, data, length, parameters },
            ),
            step == old(self).steps@.len(),
    {
        let step: usize = self.steps.len();
        self.take(Step::Decode { function, data, length, parameters });
        step
    }

    /// A value that the compiler hands in.
    pub fn import(&mut self, kind: Kind) -> (value: Operand)
        requires
            old(self).wf(),
            kind.is_valid(),
        ensures
            final(self).took_one(*old(self), Step::Import { kind }),
            value == imported(old(self).next(), kind),
            final(self).value_defined(value),
    {
        let step: usize = self.steps.len();
        self.take(Step::Import { kind });
        match kind {
            Kind::Int(width) => Operand::Int(
                IntOperand::Register { register: Register { step, part: 0 }, width },
            ),
            Kind::Pointer(pointee) => Operand::Pointer(
                PointerOperand::Register { register: Register { step, part: 0 }, pointee },
            ),
            Kind::Other => Operand::Other(Register { step, part: 0 }),
        }
    }
}

/// Steps taken one after the other are taken together.
pub proof fn lemma_took_both<'a>(
    first: Contract<'a>,
    second: Contract<'a>,
    third: Contract<'a>,
    one: Seq<Step<'a>>,
    two: Seq<Step<'a>>,
)
    requires
        second.took(first, one),
        third.took(second, two),
    ensures
        third.took(first, one + two),
{
    assert(first.steps@ + one + two =~= first.steps@ + (one + two));
}

/// Values, pointers and functions stay defined when steps are taken.
pub proof fn lemma_values_kept<'a>(
    before: Contract<'a>,
    after: Contract<'a>,
    values: Seq<Operand>,
)
    requires
        after.extends(before),
    ensures
        forall|i: int|
            0 <= i < values.len() && before.value_defined(values[i]) ==> after.value_defined(
                #[trigger] values[i],
            ),
        forall|value: PointerOperand|
            before.pointer_defined(value) ==> #[trigger] after.pointer_defined(value),
        forall|value: IntOperand| before.int_defined(value) ==> #[trigger] after.int_defined(value),
        forall|f: FunctionRef|
            before.function_defined(before.next(), f) ==> #[trigger] after.function_defined(
                after.next(),
                f,
            ),
{
}

/// An integer stays defined when a step is taken.
pub broadcast proof fn lemma_int_kept<'a>(
    before: Contract<'a>,
    after: Contract<'a>,
    step: Step<'a>,
    value: IntOperand,
)
    requires
        #[trigger] after.took_one(before, step),
        before.int_defined(value),
    ensures
        #[trigger] after.int_defined(value),
{
}

/// A pointer stays defined when a step is taken.
pub broadcast proof fn lemma_pointer_kept<'a>(
    before: Contract<'a>,
    after: Contract<'a>,
    step: Step<'a>,
    value: PointerOperand,
)
    requires
        #[trigger] after.took_one(before, step),
        before.pointer_defined(value),
    ensures
        #[trigger] after.pointer_defined(value),
{
}

/// A value stays defined when a step is taken.
pub broadcast proof fn lemma_value_kept<'a>(
    before: Contract<'a>,
    after: Contract<'a>,
    step: Step<'a>,
    value: Operand,
)
    requires
        #[trigger] after.took_one(before, step),
        before.value_defined(value),
    ensures
        #[trigger] after.value_defined(value),
{
}

/// A block stays defined when a step is taken.
pub broadcast proof fn lemma_block_kept<'a>(
    before: Contract<'a>,
    after: Contract<'a>,
    step: Step<'a>,
    block: BlockRef,
)
    requires
        #[trigger] after.took_one(before, step),
        before.block_defined(block),
    ensures
        #[trigger] after.block_defined(block),
{
}

pub broadcast group group_kept {
    lemma_int_kept,
    lemma_pointer_kept,
    lemma_value_kept,
    lemma_block_kept,
}

/// The value that an `Import` step yields.
pub open spec fn imported(step: int, kind: Kind) -> Operand {
    let register = Register { step: step as usize, part: 0 };
    match kind {
        Kind::Int(width) => Operand::Int(IntOperand::Register { register, width }),
        Kind::Pointer(pointee) => Operand::Pointer(
            PointerOperand::Register { register, pointee },
        ),
        Kind::Other => Operand::Other(register),
    }
}

} // verus!
