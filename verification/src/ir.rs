//! Values, functions and builder steps.
//!
//! A step is one call on an LLVM module or builder, or one request to another part
//! of the compiler. A step that yields values is referred to by its place in the
//! list of steps, so every value has exactly one defining step.
use crate::resolver::{Function, Parameter, Type};
use vstd::prelude::*;

verus! {

/// A function with a fixed name: the entry point, the host functions of ewasm, and
/// the functions of the runtime library that is linked into every module.
#[derive(Clone, Copy, PartialEq, Eq, Structural, Debug)]
pub enum Symbol {
    Main,
    StorageStore,
    StorageLoad,
    GetCallDataSize,
    GetCodeSize,
    GetReturnDataSize,
    CallDataCopy,
    CodeCopy,
    ReturnDataCopy,
    PrintMem,
    Create,
    Call,
    Finish,
    Revert,
    InitHeap,
    Malloc,
    Bzero8,
    Memcpy,
    Sha3,
}

impl Symbol {
    /// The symbol's name in the module.
    pub open spec fn spec_name(self) -> &'static str {
        match self {
            Symbol::Main => "main",
            Symbol::StorageStore => "storageStore",
            Symbol::StorageLoad => "storageLoad",
            Symbol::GetCallDataSize => "getCallDataSize",
            Symbol::GetCodeSize => "getCodeSize",
            Symbol::GetReturnDataSize => "getReturnDataSize",
            Symbol::CallDataCopy => "callDataCopy",
            Symbol::CodeCopy => "codeCopy",
            Symbol::ReturnDataCopy => "returnDataCopy",
            Symbol::PrintMem => "printMem",
            Symbol::Create => "create",
            Symbol::Call => "call",
            Symbol::Finish => "finish",
            Symbol::Revert => "revert",
            Symbol::InitHeap => "__init_heap",
            Symbol::Malloc => "__malloc",
            Symbol::Bzero8 => "__bzero8",
            Symbol::Memcpy => "__memcpy",
            Symbol::Sha3 => "sha3",
        }
    }

    /// The kind of what the function returns, where it returns anything.
    pub open spec fn ret(self) -> Option<Kind> {
        match self {
            Symbol::GetCallDataSize | Symbol::GetCodeSize | Symbol::GetReturnDataSize
            | Symbol::Create | Symbol::Call => Some(Kind::Int(32)),
            Symbol::Malloc => Some(Kind::Pointer(Pointee::Int(8))),
            _ => None,
        }
    }

    /// The symbol's name in the module.
    pub fn name(&self) -> (name: &'static str)
        ensures
            name == self.spec_name(),
    {
        match self {
            Symbol::Main => "main",
            Symbol::StorageStore => "storageStore",
            Symbol::StorageLoad => "storageLoad",
            Symbol::GetCallDataSize => "getCallDataSize",
            Symbol::GetCodeSize => "getCodeSize",
            Symbol::GetReturnDataSize => "getReturnDataSize",
            Symbol::CallDataCopy => "callDataCopy",
            Symbol::CodeCopy => "codeCopy",
            Symbol::ReturnDataCopy => "returnDataCopy",
            Symbol::PrintMem => "printMem",
            Symbol::Create => "create",
            Symbol::Call => "call",
            Symbol::Finish => "finish",
            Symbol::Revert => "revert",
            Symbol::InitHeap => "__init_heap",
            Symbol::Malloc => "__malloc",
            Symbol::Bzero8 => "__bzero8",
            Symbol::Memcpy => "__memcpy",
            Symbol::Sha3 => "sha3",
        }
    }
}

/// An integer type has from one bit to two to the power of 23 bits.
pub open spec fn valid_width(width: u32) -> bool {
    1 <= width <= 0x80_0000
}

/// What a pointer points to: an integer of some width, or anything.
#[derive(Clone, Copy, PartialEq, Eq, Structural, Debug)]
pub enum Pointee {
    Int(u32),
    Other,
}

/// The kind of a value: an integer of some width, a pointer, or anything.
#[derive(Clone, Copy, PartialEq, Eq, Structural, Debug)]
pub enum Kind {
    Int(u32),
    Pointer(Pointee),
    Other,
}

impl Kind {
    /// The kind is that of an integer or of a pointer to integers.
    pub open spec fn is_plain(self) -> bool {
        match self {
            Kind::Int(width) => valid_width(width),
            Kind::Pointer(Pointee::Int(width)) => valid_width(width),
            _ => false,
        }
    }

    /// The kind is that of values that LLVM can have.
    pub open spec fn is_valid(self) -> bool {
        match self {
            Kind::Int(width) => valid_width(width),
            Kind::Pointer(Pointee::Int(width)) => valid_width(width),
            _ => true,
        }
    }

    /// A value of the kind `actual` is one of this kind. Nothing is asked of a value of
    /// kind `Other`, nor of what a pointer to `Other` points to.
    pub open spec fn admits(self, actual: Kind) -> bool {
        match self {
            Kind::Other => true,
            Kind::Pointer(Pointee::Other) => actual is Pointer,
            _ => actual == self,
        }
    }
}

/// The `part`-th value that step number `step` yields.
#[derive(Clone, Copy, PartialEq, Eq, Structural, Debug)]
pub struct Register {
    pub step: usize,
    pub part: usize,
}

/// An integer: a constant, or what a step yields. A constant stands for its value
/// modulo two to the power of its width.
#[derive(Clone, Copy, PartialEq, Eq, Structural, Debug)]
pub enum IntOperand {
    Const { width: u32, value: u64 },
    Register { register: Register, width: u32 },
}

impl IntOperand {
    /// The bit width.
    pub open spec fn spec_width(self) -> u32 {
        match self {
            IntOperand::Const { width, .. } => width,
            IntOperand::Register { width, .. } => width,
        }
    }

    /// The bit width.
    pub fn width(&self) -> (width: u32)
        ensures
            width == self.spec_width(),
    {
        match self {
            IntOperand::Const { width, .. } => *width,
            IntOperand::Register { width, .. } => *width,
        }
    }
}

/// A pointer: null, or what a step yields.
#[derive(Clone, Copy, PartialEq, Eq, Structural, Debug)]
pub enum PointerOperand {
    Null { pointee: Pointee },
    Register { register: Register, pointee: Pointee },
}

impl PointerOperand {
    /// What the pointer points to.
    pub open spec fn spec_pointee(self) -> Pointee {
        match self {
            PointerOperand::Null { pointee } => pointee,
            PointerOperand::Register { pointee, .. } => pointee,
        }
    }

    /// What the pointer points to.
    pub fn pointee(&self) -> (pointee: Pointee)
        ensures
            pointee == self.spec_pointee(),
    {
        match self {
            PointerOperand::Null { pointee } => *pointee,
            PointerOperand::Register { pointee, .. } => *pointee,
        }
    }
}

/// Any value.
#[derive(Clone, Copy, PartialEq, Eq, Structural, Debug)]
pub enum Operand {
    Int(IntOperand),
    Pointer(PointerOperand),
    Other(Register),
}

impl Operand {
    /// The value's kind.
    pub open spec fn kind(self) -> Kind {
        match self {
            Operand::Int(v) => Kind::Int(v.spec_width()),
            Operand::Pointer(v) => Kind::Pointer(v.spec_pointee()),
            Operand::Other(_) => Kind::Other,
        }
    }
}

/// A function of the module: one that is looked up by its name, one that a step added, or
/// one that the compiler emitted. An added function and the initializer are known by their
/// step; `Function(i)` is the contract's function number `i` and `Constructor(i)` its
/// constructor number `i`. `Enclosing` is the function that the compiler is emitting when it asks for a
/// fragment of code.
#[derive(Clone, Copy, PartialEq, Eq, Structural, Debug)]
pub enum FunctionRef {
    Symbol(Symbol),
    Added(usize),
    Initializer(usize),
    Constructor(usize),
    Function(usize),
    Enclosing,
}

/// A basic block, known by the step that appended it.
#[derive(Clone, Copy, PartialEq, Eq, Structural, Debug)]
pub struct BlockRef {
    pub step: usize,
}

/// Up to five items: the parameters or the arguments of a function.
#[derive(Clone, Copy, PartialEq, Eq, Structural, Debug)]
pub enum List<T> {
    Zero,
    One(T),
    Two(T, T),
    Three(T, T, T),
    Four(T, T, T, T),
    Five(T, T, T, T, T),
}

impl<T> View for List<T> {
    type V = Seq<T>;

    open spec fn view(&self) -> Seq<T> {
        match *self {
            List::Zero => seq![],
            List::One(a) => seq![a],
            List::Two(a, b) => seq![a, b],
            List::Three(a, b, c) => seq![a, b, c],
            List::Four(a, b, c, d) => seq![a, b, c, d],
            List::Five(a, b, c, d, e) => seq![a, b, c, d, e],
        }
    }
}

impl<T: Copy> List<T> {
    /// The items in order.
    pub fn to_vec(&self) -> (items: Vec<T>)
        ensures
            items@ == self@,
    {
        let mut items: Vec<T> = Vec::new();
        match *self {
            List::Zero => {},
            List::One(a) => {
                items.push(a);
            },
            List::Two(a, b) => {
                items.push(a);
                items.push(b);
            },
            List::Three(a, b, c) => {
                items.push(a);
                items.push(b);
                items.push(c);
            },
            List::Four(a, b, c, d) => {
                items.push(a);
                items.push(b);
                items.push(c);
                items.push(d);
            },
            List::Five(a, b, c, d, e) => {
                items.push(a);
                items.push(b);
                items.push(c);
                items.push(d);
                items.push(e);
            },
        }
        items
    }
}

/// One call on the module or the builder, or one request to another part of the
/// compiler.
#[derive(Clone, Copy, PartialEq, Eq, Debug)]
pub enum Step<'a> {
    /// A value that the compiler hands in.
    Import { kind: Kind },
    /// Adds a function to the module; `ret` is `None` where it returns nothing.
    AddFunction {
        symbol: Symbol,
        ret: Option<Kind>,
        params: List<Kind>,
        external: bool,
    },
    /// Marks the function that step number `declaration` added as one that does not return.
    SetNoReturn { declaration: usize },
    AppendBlock { function: FunctionRef, name: &'static str },
    PositionAtEnd { block: BlockRef },
    Call { callee: FunctionRef, args: List<Operand>, name: &'static str },
    /// Calls a function with the values that a `Decode` step yielded.
    CallDecoded { callee: FunctionRef, decode: usize },
    IntAdd { lhs: IntOperand, rhs: IntOperand },
    IntSub { lhs: IntOperand, rhs: IntOperand },
    IntUnsignedDiv { lhs: IntOperand, rhs: IntOperand },
    IntEqual { lhs: IntOperand, rhs: IntOperand, name: &'static str },
    /// Casts a pointer to a pointer to an integer of `width` bits.
    PointerCast { pointer: PointerOperand, width: u32, name: &'static str },
    /// Casts a pointer to the type of another pointer.
    PointerCastLike { pointer: PointerOperand, like: PointerOperand, name: &'static str },
    /// Stack space for an integer of `width` bits.
    Alloca { width: u32, name: &'static str },
    /// Stack space for `count` integers of `width` bits.
    ArrayAlloca { width: u32, count: IntOperand, name: &'static str },
    /// Loads the integer of `width` bits that `pointer` points to.
    Load { pointer: PointerOperand, width: u32, name: &'static str },
    Store { pointer: PointerOperand, value: IntOperand },
    /// The address `index` items past `pointer`.
    Gep { pointer: PointerOperand, index: IntOperand },
    CondBranch { condition: IntOperand, then_block: BlockRef, else_block: BlockRef },
    Return { value: IntOperand },
    Unreachable,
    /// Adds the `global`-th global of the contract to the module.
    GlobalString { global: usize },
    /// Emits the contract's constructors and functions.
    EmitFunctions,
    /// Emits the function that initializes the storage variables.
    EmitInitializer,
    /// Emits the dispatch on the function selector of the call data: over `functions`,
    /// number `i` of which was emitted as `Function(i)`, for every `i` below `emitted`.
    Dispatch {
        functions: &'a Vec<Function>,
        emitted: usize,
        data: PointerOperand,
        length: IntOperand,
        function: FunctionRef,
        fallback: BlockRef,
    },
    /// Makes every function internal but those that the contract exports.
    Internalize,
    /// Compiles the module to wasm.
    Wasm { linking: bool },
    /// ABI-decodes one value for each parameter.
    Decode {
        function: FunctionRef,
        data: PointerOperand,
        length: IntOperand,
        parameters: &'a Vec<Parameter>,
    },
    /// The number of bytes that `arg` takes in the dynamic part of an ABI encoding.
    DynamicLength { arg: Operand, load: bool, ty: Type, function: FunctionRef },
    /// ABI-encodes `arg`; yields where the next argument's head goes, the offset of
    /// the next dynamic part, and where that part goes.
    EncodeTy {
        load: bool,
        function: FunctionRef,
        ty: Type,
        arg: Operand,
        data: PointerOperand,
        offset: IntOperand,
        dynamic: PointerOperand,
    },
}

impl<'a> Step<'a> {
    /// The kind of the `part`-th value that the step yields, if it yields one.
    pub open spec fn yields(self, part: int) -> Option<Kind> {
        match self {
            Step::Decode { parameters, .. } => if 0 <= part < parameters@.len() {
                Some(Kind::Other)
            } else {
                None
            },
            Step::EncodeTy { data, offset, dynamic, .. } => if part == 0 {
                Some(Kind::Pointer(data.spec_pointee()))
            } else if part == 1 {
                Some(Kind::Int(offset.spec_width()))
            } else if part == 2 {
                Some(Kind::Pointer(dynamic.spec_pointee()))
            } else {
                None
            },
            _ => if part != 0 {
                None
            } else {
                self.yields_one()
            },
        }
    }

    /// The kind of the value that a step with at most one value yields.
    pub open spec fn yields_one(self) -> Option<Kind> {
        match self {
            Step::Import { kind } => Some(kind),
            Step::Call { callee: FunctionRef::Symbol(symbol), .. } => symbol.ret(),
            Step::IntAdd { lhs, .. } => Some(Kind::Int(lhs.spec_width())),
            Step::IntSub { lhs, .. } => Some(Kind::Int(lhs.spec_width())),
            Step::IntUnsignedDiv { lhs, .. } => Some(Kind::Int(lhs.spec_width())),
            Step::IntEqual { .. } => Some(Kind::Int(1)),
            Step::PointerCast { width, .. } => Some(Kind::Pointer(Pointee::Int(width))),
            Step::PointerCastLike { like, .. } => Some(Kind::Pointer(like.spec_pointee())),
            Step::Alloca { width, .. } => Some(Kind::Pointer(Pointee::Int(width))),
            Step::ArrayAlloca { width, .. } => Some(Kind::Pointer(Pointee::Int(width))),
            Step::Load { width, .. } => Some(Kind::Int(width)),
            Step::Gep { pointer, .. } => Some(Kind::Pointer(pointer.spec_pointee())),
            Step::GlobalString { .. } => Some(Kind::Pointer(Pointee::Int(8))),
            Step::DynamicLength { .. } => Some(Kind::Int(32)),
            _ => None,
        }
    }
}

/// The integer that step number `step` yields.
pub open spec fn int_at(step: int, width: u32) -> IntOperand {
    IntOperand::Register { register: Register { step: step as usize, part: 0 }, width }
}

/// The integer pointer that step number `step` yields.
pub open spec fn pointer_at(step: int, width: u32) -> PointerOperand {
    PointerOperand::Register {
        register: Register { step: step as usize, part: 0 },
        pointee: Pointee::Int(width),
    }
}

/// The block that step number `step` appends.
pub open spec fn block_at(step: int) -> BlockRef {
    BlockRef { step: step as usize }
}

/// A constant of 32 bits.
pub open spec fn i32_const(value: u64) -> IntOperand {
    IntOperand::Const { width: 32, value }
}

/// A null pointer to bytes.
pub open spec fn null_bytes() -> PointerOperand {
    PointerOperand::Null { pointee: Pointee::Int(8) }
}

/// The register is yielded, with that kind, by one of the first `n` steps.
pub open spec fn register_defined(steps: Seq<Step>, n: int, register: Register, kind: Kind) -> bool {
    &&& register.step < n
    &&& steps[register.step as int].yields(register.part as int) == Some(kind)
}

/// The integer is a constant, or one of the first `n` steps yields it.
pub open spec fn int_defined(steps: Seq<Step>, n: int, value: IntOperand) -> bool {
    match value {
        IntOperand::Const { width, .. } => valid_width(width),
        IntOperand::Register { register, width } => register_defined(
            steps,
            n,
            register,
            Kind::Int(width),
        ),
    }
}

/// The pointer is null, or one of the first `n` steps yields it.
pub open spec fn pointer_defined(steps: Seq<Step>, n: int, value: PointerOperand) -> bool {
    match value {
        PointerOperand::Null { pointee } => pointee matches Pointee::Int(width) && valid_width(
            width,
        ),
        PointerOperand::Register { register, pointee } => register_defined(
            steps,
            n,
            register,
            Kind::Pointer(pointee),
        ),
    }
}

/// The value is a constant, or one of the first `n` steps yields it.
pub open spec fn value_defined(steps: Seq<Step>, n: int, value: Operand) -> bool {
    match value {
        Operand::Int(v) => int_defined(steps, n, v),
        Operand::Pointer(v) => pointer_defined(steps, n, v),
        Operand::Other(register) => register_defined(steps, n, register, Kind::Other),
    }
}

/// One of the first `n` steps appended the block.
pub open spec fn block_defined(steps: Seq<Step>, n: int, block: BlockRef) -> bool {
    block.step < n && steps[block.step as int] is AppendBlock
}

} // verus!
