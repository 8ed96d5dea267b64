//! The code that each operation of the ewasm target emits.
//!
//! `base` is the number of the first step; later steps refer to earlier ones by it.
use crate::ethabiencoder::{int_part, pointer_part};
use crate::ir::{
    Operand, FunctionRef, IntOperand, Kind, List, Pointee, PointerOperand, Step, Symbol, block_at,
    i32_const, int_at, null_bytes, pointer_at,
};
use crate::resolver::{Contract, Parameter};
use vstd::prelude::*;

verus! {

/// The size that stands in for the deployed code's size.
pub const CODE_SIZE: u64 = 0x4000;

/// A call of a named function.
pub open spec fn call<'a>(symbol: Symbol, args: List<Operand>) -> Step<'a> {
    Step::Call { callee: FunctionRef::Symbol(symbol), args, name: "" }
}

/// A call of a named function, with a name for the result.
pub open spec fn named_call<'a>(
    symbol: Symbol,
    args: List<Operand>,
    name: &'static str,
) -> Step<'a> {
    Step::Call { callee: FunctionRef::Symbol(symbol), args, name }
}

/// An integer, as an argument.
pub open spec fn int_arg(value: IntOperand) -> Operand {
    Operand::Int(value)
}

/// A pointer, as an argument.
pub open spec fn pointer_arg(value: PointerOperand) -> Operand {
    Operand::Pointer(value)
}

/// A cast to a pointer to bytes.
pub open spec fn byte_cast<'a>(value: PointerOperand, name: &'static str) -> Step<'a> {
    Step::PointerCast { pointer: value, width: 8, name }
}

/// A pointer to bytes, as a parameter.
pub open spec fn bytes_param() -> Kind {
    Kind::Pointer(Pointee::Int(8))
}

/// The declaration of a host function.
pub open spec fn external<'a>(symbol: Symbol, ret: Option<Kind>, params: List<Kind>) -> Step<'a> {
    Step::AddFunction { symbol, ret, params, external: true }
}

/// The declarations of the host functions. The two that end an execution are marked as
/// functions that do not return.
pub open spec fn declare_externals<'a>(base: int) -> Seq<Step<'a>> {
    let p = bytes_param();
    let i = Kind::Int(32);
    seq![
        external(Symbol::StorageStore, None, List::Two(p, p)),
        external(Symbol::StorageLoad, None, List::Two(p, p)),
        external(Symbol::GetCallDataSize, Some(i), List::Zero),
        external(Symbol::GetCodeSize, Some(i), List::Zero),
        external(Symbol::GetReturnDataSize, Some(i), List::Zero),
        external(Symbol::CallDataCopy, None, List::Three(p, i, i)),
        external(Symbol::CodeCopy, None, List::Three(p, i, i)),
        external(Symbol::ReturnDataCopy, None, List::Three(p, i, i)),
        external(Symbol::PrintMem, None, List::Two(p, i)),
        external(Symbol::Create, Some(i), List::Four(p, p, i, p)),
        external(Symbol::Call, Some(i), List::Five(Kind::Int(64), p, p, p, i)),
        external(Symbol::Finish, None, List::Two(p, i)),
        Step::SetNoReturn { declaration: (base + 11) as usize },
        external(Symbol::Revert, None, List::Two(p, i)),
        Step::SetNoReturn { declaration: (base + 13) as usize },
    ]
}

/// The host functions, in the order of their declarations.
pub open spec fn externals() -> Seq<Symbol> {
    seq![
        Symbol::StorageStore,
        Symbol::StorageLoad,
        Symbol::GetCallDataSize,
        Symbol::GetCodeSize,
        Symbol::GetReturnDataSize,
        Symbol::CallDataCopy,
        Symbol::CodeCopy,
        Symbol::ReturnDataCopy,
        Symbol::PrintMem,
        Symbol::Create,
        Symbol::Call,
        Symbol::Finish,
        Symbol::Revert,
    ]
}

/// The declaration of the entry point.
pub open spec fn add_main<'a>() -> Step<'a> {
    Step::AddFunction { symbol: Symbol::Main, ret: None, params: List::Zero, external: false }
}

/// Enters the function and copies the whole call data to the heap. The data is the
/// seventh step's pointer, its length the fourth step's integer.
pub open spec fn runtime_prelude<'a>(base: int, function: FunctionRef) -> Seq<Step<'a>> {
    let length = int_at(base + 3, 32);
    let args = pointer_at(base + 4, 8);
    seq![
        Step::AppendBlock { function, name: "entry" },
        Step::PositionAtEnd { block: block_at(base) },
        call(Symbol::InitHeap, List::Zero),
        named_call(Symbol::GetCallDataSize, List::Zero, "calldatasize"),
        call(Symbol::Malloc, List::One(int_arg(length))),
        call(
            Symbol::CallDataCopy,
            List::Three(pointer_arg(args), int_arg(i32_const(0)), int_arg(length)),
        ),
        Step::PointerCast { pointer: args, width: 32, name: "" },
    ]
}

/// Enters the function and copies what follows the deployed code to the heap. The data
/// is the eighth step's pointer, its length the fifth step's integer.
pub open spec fn deployer_prelude<'a>(base: int, function: FunctionRef) -> Seq<Step<'a>> {
    let code_size = i32_const(CODE_SIZE);
    let length = int_at(base + 4, 32);
    let args = pointer_at(base + 5, 8);
    seq![
        Step::AppendBlock { function, name: "entry" },
        Step::PositionAtEnd { block: block_at(base) },
        call(Symbol::InitHeap, List::Zero),
        named_call(Symbol::GetCodeSize, List::Zero, "codesize"),
        Step::IntSub { lhs: int_at(base + 3, 32), rhs: code_size },
        call(Symbol::Malloc, List::One(int_arg(length))),
        call(Symbol::CodeCopy, List::Three(pointer_arg(args), int_arg(code_size), int_arg(length))),
        Step::PointerCast { pointer: args, width: 32, name: "" },
    ]
}

/// Decodes the first constructor's arguments and calls it, where there is one.
pub open spec fn construct<'a>(
    base: int,
    contract: &'a Contract,
    constructors: Seq<FunctionRef>,
    function: FunctionRef,
    data: PointerOperand,
    length: IntOperand,
) -> Seq<Step<'a>> {
    if contract.constructors@.len() == 0 {
        seq![]
    } else {
        seq![
            Step::Decode {
                function,
                data,
                length,
                parameters: &contract.constructors@[0].params,
            },
            Step::CallDecoded { callee: constructors[0], decode: base as usize },
        ]
    }
}

/// The deployer's entry point: initializes the storage, runs the constructor, and
/// returns the runtime code, which is the `global`-th global and `size` bytes long.
pub open spec fn deployer_dispatch<'a>(
    base: int,
    contract: &'a Contract,
    constructors: Seq<FunctionRef>,
    global: int,
    size: int,
) -> Seq<Step<'a>> {
    let main = FunctionRef::Added((base + 1) as usize);
    let constructor = construct(
        base + 11,
        contract,
        constructors,
        main,
        pointer_at(base + 9, 32),
        int_at(base + 6, 32),
    );
    let end = base + 11 + constructor.len();
    seq![Step::EmitInitializer, add_main()] + deployer_prelude(base + 2, main) + seq![
        Step::Call {
            callee: FunctionRef::Initializer(base as usize),
            args: List::Zero,
            name: "",
        },
    ] + constructor + seq![
        Step::GlobalString { global: global as usize },
        call(
            Symbol::Finish,
            List::Two(pointer_arg(pointer_at(end, 8)), int_arg(i32_const(size as u64))),
        ),
        Step::Unreachable,
    ]
}

/// What the fallback block does.
pub open spec fn fallback<'a>(
    contract: &'a Contract,
    functions: Seq<FunctionRef>,
) -> Seq<Step<'a>> {
    match contract.fallback {
        Some(f) => seq![
            Step::Call { callee: functions[f as int], args: List::Zero, name: "" },
            Step::Return { value: i32_const(0) },
        ],
        None => seq![Step::Unreachable],
    }
}

/// The runtime's entry point: dispatches on the call data, with the fallback function
/// for call data that fits no function.
pub open spec fn emit_function_dispatch<'a>(
    base: int,
    contract: &'a Contract,
    functions: Seq<FunctionRef>,
) -> Seq<Step<'a>> {
    let main = FunctionRef::Added(base as usize);
    seq![add_main()] + runtime_prelude(base + 1, main) + seq![
        Step::AppendBlock { function: main, name: "fallback" },
        Step::Dispatch {
            functions: &contract.functions,
            emitted: functions.len() as usize,
            data: pointer_at(base + 7, 32),
            length: int_at(base + 4, 32),
            function: main,
            fallback: block_at(base + 8),
        },
        Step::PositionAtEnd { block: block_at(base + 8) },
    ] + fallback(contract, functions)
}

/// The runtime module.
pub open spec fn runtime<'a>(contract: &'a Contract) -> Seq<Step<'a>> {
    declare_externals(0) + seq![Step::EmitFunctions] + emit_function_dispatch(
        16,
        contract,
        own_functions(contract),
    ) + seq![Step::Internalize, Step::Wasm { linking: true }]
}

/// The deployer module for a runtime of `size` bytes.
pub open spec fn deployer<'a>(contract: &'a Contract, size: int) -> Seq<Step<'a>> {
    declare_externals(0) + seq![Step::EmitFunctions] + deployer_dispatch(
        16,
        contract,
        own_constructors(contract),
        0,
        size,
    ) + seq![Step::Internalize]
}

/// The contract's functions, once they are emitted.
pub open spec fn own_functions(contract: &Contract) -> Seq<FunctionRef> {
    Seq::new(contract.functions@.len(), |k: int| FunctionRef::Function(k as usize))
}

/// The contract's constructors, once they are emitted.
pub open spec fn own_constructors(contract: &Contract) -> Seq<FunctionRef> {
    Seq::new(contract.constructors@.len(), |k: int| FunctionRef::Constructor(k as usize))
}

/// The names that stay visible in the runtime module.
pub open spec fn runtime_exports() -> Seq<&'static str> {
    seq!["main"]
}

/// The names that stay visible in the deployer module.
pub open spec fn deployer_exports() -> Seq<&'static str> {
    seq![
        "main",
        "getCallDataSize",
        "callDataCopy",
        "storageStore",
        "storageLoad",
        "finish",
        "revert",
        "copyCopy",
        "getCodeSize",
        "printMem",
        "call",
        "create",
        "getReturnDataSize",
        "returnDataCopy",
    ]
}

/// The balance that goes with a call or a creation: zero, as an integer of 128 bits.
pub open spec fn balance() -> Seq<u8> {
    Seq::new(16, |i: int| 0u8)
}

/// Stores zero in the slot.
pub open spec fn clear_storage<'a>(base: int, slot: PointerOperand) -> Seq<Step<'a>> {
    let value8 = pointer_at(base + 1, 8);
    seq![
        Step::Alloca { width: 256, name: "value" },
        byte_cast(pointer_at(base, 256), "value8"),
        call(Symbol::Bzero8, List::Two(pointer_arg(value8), int_arg(i32_const(4)))),
        byte_cast(slot, ""),
        call(
            Symbol::StorageStore,
            List::Two(pointer_arg(pointer_at(base + 3, 8)), pointer_arg(value8)),
        ),
    ]
}

/// Stores the integer of `width` bits at `dest` in the slot.
pub open spec fn set_storage<'a>(
    base: int,
    slot: PointerOperand,
    dest: PointerOperand,
    width: u32,
) -> Seq<Step<'a>> {
    if width == 256 {
        seq![
            byte_cast(slot, ""),
            byte_cast(dest, ""),
            call(
                Symbol::StorageStore,
                List::Two(pointer_arg(pointer_at(base, 8)), pointer_arg(pointer_at(base + 1, 8))),
            ),
        ]
    } else {
        let value = pointer_at(base, 256);
        let value8 = pointer_at(base + 1, 8);
        seq![
            Step::Alloca { width: 256, name: "value" },
            byte_cast(value, "value8"),
            call(Symbol::Bzero8, List::Two(pointer_arg(value8), int_arg(i32_const(4)))),
            Step::Load { pointer: dest, width, name: "value" },
            Step::PointerCastLike { pointer: value, like: dest, name: "" },
            Step::Store { pointer: pointer_at(base + 4, width), value: int_at(base + 3, width) },
            byte_cast(slot, ""),
            call(
                Symbol::StorageStore,
                List::Two(pointer_arg(pointer_at(base + 6, 8)), pointer_arg(value8)),
            ),
        ]
    }
}

/// Loads the integer of `width` bits that the slot holds: the last step's integer.
pub open spec fn get_storage_int<'a>(base: int, slot: PointerOperand, width: u32) -> Seq<Step<'a>> {
    let dest = pointer_at(base, 8);
    seq![
        Step::ArrayAlloca { width: 8, count: i32_const(32), name: "buf" },
        byte_cast(slot, ""),
        byte_cast(dest, ""),
        call(
            Symbol::StorageLoad,
            List::Two(pointer_arg(pointer_at(base + 1, 8)), pointer_arg(pointer_at(base + 2, 8))),
        ),
        Step::PointerCast { pointer: dest, width, name: "" },
        Step::Load { pointer: pointer_at(base + 4, width), width, name: "loaded_int" },
    ]
}

/// Hashes `length` bytes at `src` into the 32 bytes at `dest`.
pub open spec fn keccak256_hash<'a>(
    base: int,
    src: PointerOperand,
    length: IntOperand,
    dest: PointerOperand,
) -> Seq<Step<'a>> {
    seq![
        byte_cast(src, "src"),
        byte_cast(dest, "dest"),
        call(
            Symbol::Sha3,
            List::Four(
                pointer_arg(pointer_at(base, 8)),
                int_arg(length),
                pointer_arg(pointer_at(base + 1, 8)),
                int_arg(i32_const(32)),
            ),
        ),
    ]
}

/// Ends the execution with no data.
pub open spec fn return_empty_abi<'a>() -> Seq<Step<'a>> {
    return_abi(null_bytes(), i32_const(0))
}

/// Ends the execution with `length` bytes at `data`.
pub open spec fn return_abi<'a>(data: PointerOperand, length: IntOperand) -> Seq<Step<'a>> {
    seq![
        call(Symbol::Finish, List::Two(pointer_arg(data), int_arg(length))),
        Step::Return { value: i32_const(0) },
    ]
}

/// Reverts the execution with `length` bytes at `data`.
pub open spec fn assert_failure<'a>(data: PointerOperand, length: IntOperand) -> Seq<Step<'a>> {
    seq![call(Symbol::Revert, List::Two(pointer_arg(data), int_arg(length))), Step::Unreachable]
}

/// Prints `length` bytes at `string`.
pub open spec fn print<'a>(string: PointerOperand, length: IntOperand) -> Seq<Step<'a>> {
    seq![call(Symbol::PrintMem, List::Two(pointer_arg(string), int_arg(length)))]
}

/// Calls the contract at `address`, without gas and with the `global`-th global for the
/// balance. The status is the last step's integer.
pub open spec fn external_call<'a>(
    base: int,
    payload: PointerOperand,
    length: IntOperand,
    address: PointerOperand,
    global: int,
) -> Seq<Step<'a>> {
    seq![
        Step::GlobalString { global: global as usize },
        call(
            Symbol::Call,
            List::Five(
                int_arg(IntOperand::Const { width: 64, value: 0 }),
                pointer_arg(address),
                pointer_arg(pointer_at(base, 8)),
                pointer_arg(payload),
                int_arg(length),
            ),
        ),
    ]
}

/// Copies the whole return data of the last call to the heap. The data is the second
/// step's pointer, its length the first step's integer.
pub open spec fn return_data<'a>(base: int) -> Seq<Step<'a>> {
    let length = int_at(base, 32);
    let data = pointer_at(base + 1, 8);
    seq![
        named_call(Symbol::GetReturnDataSize, List::Zero, "returndatasize"),
        call(Symbol::Malloc, List::One(int_arg(length))),
        call(
            Symbol::ReturnDataCopy,
            List::Three(pointer_arg(data), int_arg(i32_const(0)), int_arg(length)),
        ),
    ]
}

/// The sum of the fixed lengths of the parameters.
pub open spec fn fixed_length(spec: Seq<Parameter>) -> nat
    decreases spec.len(),
{
    if spec.len() == 0 {
        0
    } else {
        fixed_length(spec.drop_last()) + spec.last().ty.encoded_fixed_length as nat
    }
}

/// The word whose bytes in memory, low byte first, are the selector's, high byte first.
pub open spec fn selector_word(selector: u32) -> u32 {
    ((selector % 256) * 0x1000000 + (selector / 0x100 % 256) * 0x10000 + (selector / 0x10000 % 256)
        * 0x100 + selector / 0x1000000) as u32
}

/// An ABI encoding: the selector, the constant bytes, then the arguments. Each of the
/// first two may be missing.
pub ghost struct Encoding {
    pub base: int,
    pub selector: Option<u32>,
    pub constant: Option<(PointerOperand, u64)>,
    pub load: bool,
    pub function: FunctionRef,
    pub args: Seq<Operand>,
    pub spec: Seq<Parameter>,
}

impl Encoding {
    /// The length of the fixed part of the arguments.
    pub open spec fn fixed(self) -> IntOperand {
        i32_const(fixed_length(self.spec) as u64)
    }

    /// The length of the fixed part and of the dynamic parts of the first `n` arguments.
    pub open spec fn arguments_length(self, n: int) -> IntOperand {
        if n == 0 {
            self.fixed()
        } else {
            int_at(self.base + 2 * n - 1, 32)
        }
    }

    /// Adds up the dynamic lengths of the first `n` arguments.
    pub open spec fn add_arguments<'a>(self, n: int) -> Seq<Step<'a>> {
        Seq::new(
            (2 * n) as nat,
            |k: int|
                if k % 2 == 0 {
                    Step::DynamicLength {
                        arg: self.args[k / 2],
                        load: self.load,
                        ty: self.spec[k / 2].ty,
                        function: self.function,
                    }
                } else {
                    Step::IntAdd {
                        lhs: self.arguments_length(k / 2),
                        rhs: int_at(self.base + k - 1, 32),
                    }
                },
        )
    }

    /// The number of the first step after `add_arguments`.
    pub open spec fn after_arguments(self) -> int {
        self.base + 2 * self.spec.len()
    }

    /// The length with the selector.
    pub open spec fn selector_length(self) -> IntOperand {
        if self.selector is Some {
            int_at(self.after_arguments(), 32)
        } else {
            self.arguments_length(self.spec.len() as int)
        }
    }

    /// Adds the selector's length.
    pub open spec fn add_selector<'a>(self) -> Seq<Step<'a>> {
        if self.selector is Some {
            seq![
                Step::IntAdd {
                    lhs: self.arguments_length(self.spec.len() as int),
                    rhs: i32_const(4),
                },
            ]
        } else {
            seq![]
        }
    }

    /// The number of the first step after `add_selector`.
    pub open spec fn after_selector(self) -> int {
        self.after_arguments() + self.add_selector().len()
    }

    /// The length of the whole encoding.
    pub open spec fn length(self) -> IntOperand {
        if self.constant is Some {
            int_at(self.after_selector(), 32)
        } else {
            self.selector_length()
        }
    }

    /// Adds the constant's length.
    pub open spec fn add_constant<'a>(self) -> Seq<Step<'a>> {
        match self.constant {
            Some((_, len)) => seq![
                Step::IntAdd { lhs: self.selector_length(), rhs: i32_const(len) },
            ],
            None => seq![],
        }
    }

    /// The number of the step that allocates the encoding.
    pub open spec fn allocation(self) -> int {
        self.after_selector() + self.add_constant().len()
    }

    /// The encoding's first byte.
    pub open spec fn start(self) -> PointerOperand {
        pointer_at(self.allocation(), 8)
    }

    /// Allocates the encoding.
    pub open spec fn allocate<'a>(self) -> Seq<Step<'a>> {
        seq![call(Symbol::Malloc, List::One(int_arg(self.length())))]
    }

    /// Writes the selector.
    pub open spec fn write_selector<'a>(self) -> Seq<Step<'a>> {
        match self.selector {
            Some(selector) => seq![
                Step::PointerCast { pointer: self.start(), width: 32, name: "" },
                Step::Store {
                    pointer: pointer_at(self.allocation() + 1, 32),
                    value: i32_const(selector_word(selector) as u64),
                },
                Step::Gep { pointer: self.start(), index: i32_const(4) },
            ],
            None => seq![],
        }
    }

    /// The first byte after the selector.
    pub open spec fn constant_start(self) -> PointerOperand {
        if self.selector is Some {
            pointer_at(self.allocation() + 3, 8)
        } else {
            self.start()
        }
    }

    /// The number of the first step after `write_selector`.
    pub open spec fn selector_written(self) -> int {
        self.allocation() + 1 + self.write_selector().len()
    }

    /// Copies the constant bytes.
    pub open spec fn write_constant<'a>(self) -> Seq<Step<'a>> {
        match self.constant {
            Some((code, len)) => seq![
                byte_cast(self.constant_start(), ""),
                call(
                    Symbol::Memcpy,
                    List::Three(
                        pointer_arg(pointer_at(self.selector_written(), 8)),
                        pointer_arg(code),
                        int_arg(i32_const(len)),
                    ),
                ),
                Step::Gep { pointer: self.constant_start(), index: i32_const(len) },
            ],
            None => seq![],
        }
    }

    /// The first byte of the arguments.
    pub open spec fn arguments_start(self) -> PointerOperand {
        if self.constant is Some {
            pointer_at(self.selector_written() + 2, 8)
        } else {
            self.constant_start()
        }
    }

    /// The number of the first step after `write_constant`.
    pub open spec fn constant_written(self) -> int {
        self.selector_written() + self.write_constant().len()
    }

    /// Zeroes the arguments and finds where the dynamic parts go.
    pub open spec fn clear_arguments<'a>(self) -> Seq<Step<'a>> {
        seq![
            Step::IntUnsignedDiv { lhs: self.selector_length(), rhs: i32_const(8) },
            call(
                Symbol::Bzero8,
                List::Two(
                    pointer_arg(self.arguments_start()),
                    int_arg(int_at(self.constant_written(), 32)),
                ),
            ),
            Step::Gep { pointer: self.arguments_start(), index: self.fixed() },
        ]
    }

    /// The first byte of the dynamic parts.
    pub open spec fn dynamic_start(self) -> PointerOperand {
        pointer_at(self.constant_written() + 2, 8)
    }

    /// The number of the step that writes the first argument.
    pub open spec fn first_argument(self) -> int {
        self.constant_written() + 3
    }

    /// Where the head of argument `n` goes.
    pub open spec fn data(self, n: int) -> PointerOperand {
        if n == 0 {
            self.arguments_start()
        } else {
            pointer_part(self.first_argument() + n - 1, 0, self.arguments_start())
        }
    }

    /// The offset of the dynamic part of argument `n`.
    pub open spec fn offset(self, n: int) -> IntOperand {
        if n == 0 {
            self.fixed()
        } else {
            int_part(self.first_argument() + n - 1, 1, self.fixed())
        }
    }

    /// Where the dynamic part of argument `n` goes.
    pub open spec fn dynamic(self, n: int) -> PointerOperand {
        if n == 0 {
            self.dynamic_start()
        } else {
            pointer_part(self.first_argument() + n - 1, 2, self.dynamic_start())
        }
    }

    /// Writes the first `n` arguments.
    pub open spec fn write_arguments<'a>(self, n: int) -> Seq<Step<'a>> {
        Seq::new(
            n as nat,
            |k: int|
                Step::EncodeTy {
                    load: self.load,
                    function: self.function,
                    ty: self.spec[k].ty,
                    arg: self.args[k],
                    data: self.data(k),
                    offset: self.offset(k),
                    dynamic: self.dynamic(k),
                },
        )
    }

    /// Finds the length of the encoding.
    pub open spec fn lengths<'a>(self) -> Seq<Step<'a>> {
        self.add_arguments(self.spec.len() as int) + self.add_selector() + self.add_constant()
    }

    /// Allocates the encoding and writes what comes before the arguments.
    pub open spec fn prefix<'a>(self) -> Seq<Step<'a>> {
        self.allocate() + self.write_selector() + self.write_constant()
    }

    /// The code up to the first argument.
    pub open spec fn head<'a>(self) -> Seq<Step<'a>> {
        self.lengths() + self.prefix() + self.clear_arguments()
    }

    /// The code.
    pub open spec fn code<'a>(self) -> Seq<Step<'a>> {
        self.head() + self.write_arguments(self.spec.len() as int)
    }
}

/// The parameters of constructor `constructor_no`; none where there is no constructor.
pub open spec fn constructor_params(contract: &Contract, constructor_no: int) -> Seq<Parameter> {
    if contract.constructors@.len() == 0 {
        seq![]
    } else {
        contract.constructors@[constructor_no].params@
    }
}

/// The input of a contract creation: the code, then the constructor's arguments.
pub open spec fn creation_input(
    base: int,
    function: FunctionRef,
    size: int,
    args: Seq<Operand>,
    spec: Seq<Parameter>,
) -> Encoding {
    Encoding {
        base: base + 1,
        selector: None,
        constant: Some((pointer_at(base, 8), size as u64)),
        load: false,
        function,
        args,
        spec,
    }
}

/// Creates a contract with the `length` bytes at `input` and reverts where that fails.
/// The `global`-th global is the balance. The new contract's address goes to `address`.
pub open spec fn finish_creation<'a>(
    base: int,
    function: FunctionRef,
    global: int,
    address: PointerOperand,
    input: PointerOperand,
    length: IntOperand,
) -> Seq<Step<'a>> {
    seq![
        Step::GlobalString { global: global as usize },
        call(
            Symbol::Create,
            List::Four(
                pointer_arg(pointer_at(base, 8)),
                pointer_arg(input),
                int_arg(length),
                pointer_arg(address),
            ),
        ),
        Step::IntEqual { lhs: int_at(base + 1, 32), rhs: i32_const(0), name: "success" },
        Step::AppendBlock { function, name: "success" },
        Step::AppendBlock { function, name: "bail" },
        Step::CondBranch {
            condition: int_at(base + 2, 1),
            then_block: block_at(base + 3),
            else_block: block_at(base + 4),
        },
        Step::PositionAtEnd { block: block_at(base + 4) },
    ] + assert_failure(null_bytes(), i32_const(0)) + seq![
        Step::PositionAtEnd { block: block_at(base + 3) },
    ]
}

/// Creates a contract from its code and its constructor's arguments. The code is the
/// `global`-th global and `size` bytes long; the next global is the balance.
pub open spec fn create_contract<'a>(
    base: int,
    function: FunctionRef,
    global: int,
    size: int,
    address: PointerOperand,
    args: Seq<Operand>,
    spec: Seq<Parameter>,
) -> Seq<Step<'a>> {
    let input = creation_input(base, function, size, args, spec);
    seq![Step::GlobalString { global: global as usize }] + input.code() + finish_creation(
        base + 1 + input.code::<'a>().len(),
        function,
        global + 1,
        address,
        input.start(),
        input.length(),
    )
}

/// The name of the global that holds a contract's code.
pub open spec fn code_name(contract: &Contract) -> Seq<char> {
    "contract_"@ + contract.name@ + "_code"@
}

} // verus!
