//! The shape of emitted code: which functions it calls and how often, which function its
//! blocks belong to, and how these end.
use crate::code::{self, Encoding};
use crate::ir::{
    BlockRef, FunctionRef, IntOperand, Operand, PointerOperand, Step, Symbol,
};
use crate::resolver::Parameter;
use vstd::prelude::*;

verus! {

/// The step calls the function with that name.
pub open spec fn calls(step: Step, symbol: Symbol) -> bool {
    step matches Step::Call { callee, .. } && callee == FunctionRef::Symbol(symbol)
}

/// How many of the first `n` steps call the function with that name.
pub open spec fn call_count(steps: Seq<Step>, n: int, symbol: Symbol) -> nat
    decreases n,
{
    if n <= 0 {
        0
    } else {
        call_count(steps, n - 1, symbol) + if calls(steps[n - 1], symbol) {
            1nat
        } else {
            0nat
        }
    }
}

/// How many of the steps call the function with that name.
pub open spec fn all_calls(steps: Seq<Step>, symbol: Symbol) -> nat {
    call_count(steps, steps.len() as int, symbol)
}

/// One if it holds, else zero.
pub open spec fn once(holds: bool) -> nat {
    if holds {
        1
    } else {
        0
    }
}

/// The step adds instructions to the block that is being written, and does nothing else to
/// the module.
pub open spec fn is_instruction(step: Step) -> bool {
    match step {
        Step::Call { .. } | Step::CallDecoded { .. } | Step::IntAdd { .. } | Step::IntSub { .. }
        | Step::IntUnsignedDiv { .. } | Step::IntEqual { .. } | Step::PointerCast { .. }
        | Step::PointerCastLike { .. } | Step::Alloca { .. } | Step::ArrayAlloca { .. }
        | Step::Load { .. } | Step::Store { .. } | Step::Gep { .. } | Step::GlobalString { .. }
        | Step::Decode { .. } | Step::DynamicLength { .. } | Step::EncodeTy { .. } => true,
        _ => false,
    }
}

/// The step ends a block.
pub open spec fn ends_block(step: Step) -> bool {
    step is CondBranch || step is Return || step is Unreachable || step is Dispatch
}

/// The steps add instructions to one block.
pub open spec fn is_straight(steps: Seq<Step>) -> bool {
    forall|k: int| 0 <= k < steps.len() ==> is_instruction(#[trigger] steps[k])
}

/// The steps add instructions to one block and end it.
pub open spec fn is_closed(steps: Seq<Step>) -> bool {
    &&& steps.len() > 0
    &&& ends_block(steps.last())
    &&& forall|k: int| 0 <= k < steps.len() - 1 ==> is_instruction(#[trigger] steps[k])
}

/// A block is left only once it has ended, and nothing is added to it after that.
pub open spec fn ends_blocks(steps: Seq<Step>, k: int) -> bool {
    &&& k > 0 && steps[k] is PositionAtEnd ==> ends_block(steps[k - 1])
    &&& k + 1 < steps.len() && ends_block(steps[k]) ==> steps[k + 1] is PositionAtEnd
}

/// What the step is for belongs to the function.
pub open spec fn belongs_to(step: Step, function: FunctionRef) -> bool {
    match step {
        Step::AppendBlock { function: f, .. } => f == function,
        Step::Dispatch { function: f, .. } => f == function,
        Step::Decode { function: f, .. } => f == function,
        Step::DynamicLength { function: f, .. } => f == function,
        Step::EncodeTy { function: f, .. } => f == function,
        _ => true,
    }
}

/// What the steps are for belongs to the function.
pub open spec fn stays_in(steps: Seq<Step>, function: FunctionRef) -> bool {
    forall|k: int| 0 <= k < steps.len() ==> belongs_to(#[trigger] steps[k], function)
}

/// Nothing but zero is returned.
pub open spec fn returns_zero(steps: Seq<Step>) -> bool {
    forall|k: int|
        0 <= k < steps.len() ==> (#[trigger] steps[k] matches Step::Return { value } ==> value == (
        IntOperand::Const { width: 32, value: 0 }))
}

/// Calls of steps one after the other are counted together.
pub proof fn lemma_calls_add_up(first: Seq<Step>, second: Seq<Step>, symbol: Symbol)
    ensures
        all_calls(first + second, symbol) == all_calls(first, symbol) + all_calls(second, symbol),
{
    lemma_first_calls(first, second, first.len() as int, symbol);
    lemma_second_calls(first, second, second.len() as int, symbol);
}

proof fn lemma_first_calls(first: Seq<Step>, second: Seq<Step>, n: int, symbol: Symbol)
    requires
        n <= first.len(),
    ensures
        call_count(first + second, n, symbol) == call_count(first, n, symbol),
    decreases n,
{
    if n > 0 {
        lemma_first_calls(first, second, n - 1, symbol);
    }
}

proof fn lemma_second_calls(first: Seq<Step>, second: Seq<Step>, n: int, symbol: Symbol)
    requires
        0 <= n <= second.len(),
    ensures
        call_count(first + second, first.len() + n, symbol) == call_count(
            first,
            first.len() as int,
            symbol,
        ) + call_count(second, n, symbol),
    decreases n,
{
    if n > 0 {
        lemma_second_calls(first, second, n - 1, symbol);
    } else {
        lemma_first_calls(first, second, first.len() as int, symbol);
    }
}

proof fn lemma_no_calls(steps: Seq<Step>, n: int, symbol: Symbol)
    requires
        0 <= n <= steps.len(),
        forall|k: int| 0 <= k < n ==> !calls(#[trigger] steps[k], symbol),
    ensures
        call_count(steps, n, symbol) == 0,
    decreases n,
{
    if n > 0 {
        lemma_no_calls(steps, n - 1, symbol);
    }
}

/// Clearing a slot zeroes stack space once and stores once. It calls nothing else.
pub proof fn clear_storage_calls<'a>(base: int, slot: PointerOperand, symbol: Symbol)
    ensures
        is_straight(code::clear_storage::<'a>(base, slot)),
        all_calls(code::clear_storage::<'a>(base, slot), symbol) == once(
            symbol is Bzero8 || symbol is StorageStore,
        ),
{
    reveal_with_fuel(call_count, 6);
}

/// Writing an integer stores once. An integer of 256 bits is stored from where it is; any
/// other one goes through stack space that is zeroed once and used with the type of the
/// pointer to the integer. Nothing else is called.
pub proof fn set_storage_calls<'a>(
    base: int,
    slot: PointerOperand,
    dest: PointerOperand,
    width: u32,
    symbol: Symbol,
)
    ensures
        is_straight(code::set_storage::<'a>(base, slot, dest, width)),
        all_calls(code::set_storage::<'a>(base, slot, dest, width), symbol) == once(
            symbol is StorageStore || (symbol is Bzero8 && width != 256),
        ),
        forall|k: int|
            0 <= k < code::set_storage::<'a>(base, slot, dest, width).len() ==> (
            #[trigger] code::set_storage::<'a>(base, slot, dest, width)[k] matches
                Step::PointerCastLike { like, .. } ==> like == dest),
{
    reveal_with_fuel(call_count, 9);
}

/// Reading an integer loads from the storage once. It calls nothing else.
pub proof fn get_storage_int_calls<'a>(base: int, slot: PointerOperand, width: u32, symbol: Symbol)
    ensures
        is_straight(code::get_storage_int::<'a>(base, slot, width)),
        all_calls(code::get_storage_int::<'a>(base, slot, width), symbol) == once(
            symbol is StorageLoad,
        ),
{
    reveal_with_fuel(call_count, 7);
}

/// Hashing calls the hash function once. It calls nothing else.
pub proof fn keccak256_hash_calls<'a>(
    base: int,
    src: PointerOperand,
    length: IntOperand,
    dest: PointerOperand,
    symbol: Symbol,
)
    ensures
        is_straight(code::keccak256_hash::<'a>(base, src, length, dest)),
        all_calls(code::keccak256_hash::<'a>(base, src, length, dest), symbol) == once(
            symbol is Sha3,
        ),
{
    reveal_with_fuel(call_count, 4);
}

/// Printing calls the host once. It calls nothing else.
pub proof fn print_calls<'a>(string: PointerOperand, length: IntOperand, symbol: Symbol)
    ensures
        is_straight(code::print::<'a>(string, length)),
        all_calls(code::print::<'a>(string, length), symbol) == once(symbol is PrintMem),
{
    reveal_with_fuel(call_count, 2);
}

/// The operations that end an execution call the host once and end their block, with a
/// return of zero where the host reports success.
pub proof fn ends_call<'a>(data: PointerOperand, length: IntOperand, symbol: Symbol)
    ensures
        is_closed(code::return_abi::<'a>(data, length)),
        code::return_abi::<'a>(data, length).last() is Return,
        returns_zero(code::return_abi::<'a>(data, length)),
        all_calls(code::return_abi::<'a>(data, length), symbol) == once(symbol is Finish),
        is_closed(code::return_empty_abi::<'a>()),
        code::return_empty_abi::<'a>().last() is Return,
        returns_zero(code::return_empty_abi::<'a>()),
        all_calls(code::return_empty_abi::<'a>(), symbol) == once(symbol is Finish),
        is_closed(code::assert_failure::<'a>(data, length)),
        code::assert_failure::<'a>(data, length).last() is Unreachable,
        all_calls(code::assert_failure::<'a>(data, length), symbol) == once(symbol is Revert),
{
    reveal_with_fuel(call_count, 3);
}

/// A call of another contract calls the host once, and nothing else. Fetching its return data
/// asks for the size, allocates and copies, each once.
pub proof fn external_call_calls<'a>(
    base: int,
    payload: PointerOperand,
    length: IntOperand,
    address: PointerOperand,
    global: int,
    symbol: Symbol,
)
    ensures
        is_straight(code::external_call::<'a>(base, payload, length, address, global)),
        all_calls(code::external_call::<'a>(base, payload, length, address, global), symbol)
            == once(symbol is Call),
        is_straight(code::return_data::<'a>(base)),
        all_calls(code::return_data::<'a>(base), symbol) == once(
            symbol is GetReturnDataSize || symbol is Malloc || symbol is ReturnDataCopy,
        ),
{
    reveal_with_fuel(call_count, 4);
}

/// The steps add instructions to one block of the function, and call the other function so
/// many times.
spec fn is_part(steps: Seq<Step>, function: FunctionRef, symbol: Symbol, times: nat) -> bool {
    &&& is_straight(steps)
    &&& stays_in(steps, function)
    &&& all_calls(steps, symbol) == times
}

proof fn lemma_parts(
    first: Seq<Step>,
    second: Seq<Step>,
    function: FunctionRef,
    symbol: Symbol,
    one: nat,
    two: nat,
)
    requires
        is_part(first, function, symbol, one),
        is_part(second, function, symbol, two),
    ensures
        is_part(first + second, function, symbol, one + two),
{
    lemma_calls_add_up(first, second, symbol);
    let all = first + second;
    assert forall|k: int| 0 <= k < all.len() implies is_instruction(#[trigger] all[k])
        && belongs_to(all[k], function) by {
        if k < first.len() {
            assert(all[k] == first[k]);
        } else {
            assert(all[k] == second[k - first.len()]);
        }
    }
}

proof fn lemma_lengths_part<'a>(e: Encoding, symbol: Symbol)
    ensures
        is_part(e.lengths::<'a>(), e.function, symbol, 0),
{
    let arguments = e.add_arguments::<'a>(e.spec.len() as int);
    lemma_no_calls(arguments, arguments.len() as int, symbol);
    lemma_no_calls(e.add_selector::<'a>(), e.add_selector::<'a>().len() as int, symbol);
    lemma_no_calls(e.add_constant::<'a>(), e.add_constant::<'a>().len() as int, symbol);
    lemma_parts(arguments, e.add_selector::<'a>(), e.function, symbol, 0, 0);
    lemma_parts(
        arguments + e.add_selector::<'a>(),
        e.add_constant::<'a>(),
        e.function,
        symbol,
        0,
        0,
    );
}

proof fn lemma_prefix_part<'a>(e: Encoding, symbol: Symbol)
    ensures
        is_part(
            e.prefix::<'a>(),
            e.function,
            symbol,
            once(symbol is Malloc || (symbol is Memcpy && e.constant is Some)),
        ),
{
    let copied = once(symbol is Memcpy && e.constant is Some);
    let selector = e.write_selector::<'a>();
    assert(is_part(e.allocate::<'a>(), e.function, symbol, once(symbol is Malloc))) by {
        reveal_with_fuel(call_count, 2);
    }
    lemma_no_calls(selector, selector.len() as int, symbol);
    assert(is_part(e.write_constant::<'a>(), e.function, symbol, copied)) by {
        reveal_with_fuel(call_count, 4);
    }
    lemma_parts(e.allocate::<'a>(), selector, e.function, symbol, once(symbol is Malloc), 0);
    lemma_parts(
        e.allocate::<'a>() + selector,
        e.write_constant::<'a>(),
        e.function,
        symbol,
        once(symbol is Malloc),
        copied,
    );
}

/// An encoding is written in one block of the function that it is asked for in. It is
/// allocated once and zeroed once, and constant bytes are copied once. Nothing else is
/// called.
pub proof fn encode_calls<'a>(e: Encoding, symbol: Symbol)
    ensures
        is_straight(e.code::<'a>()),
        stays_in(e.code::<'a>(), e.function),
        all_calls(e.code::<'a>(), symbol) == once(
            symbol is Malloc || symbol is Bzero8 || (symbol is Memcpy && e.constant is Some),
        ),
{
    let written = e.write_arguments::<'a>(e.spec.len() as int);
    let prefix = once(symbol is Malloc || (symbol is Memcpy && e.constant is Some));
    let cleared = once(symbol is Bzero8);
    lemma_lengths_part(e, symbol);
    lemma_prefix_part(e, symbol);
    assert(is_part(e.clear_arguments::<'a>(), e.function, symbol, cleared)) by {
        reveal_with_fuel(call_count, 4);
    }
    lemma_no_calls(written, written.len() as int, symbol);
    lemma_parts(e.lengths::<'a>(), e.prefix::<'a>(), e.function, symbol, 0, prefix);
    lemma_parts(
        e.lengths::<'a>() + e.prefix::<'a>(),
        e.clear_arguments::<'a>(),
        e.function,
        symbol,
        prefix,
        cleared,
    );
    lemma_parts(e.head::<'a>(), written, e.function, symbol, prefix + cleared, 0);
}

/// A creation appends its blocks to the function that it is asked for in, ends every block
/// that it leaves, and goes on in the block for success. It asks the host once, and allocates
/// once. Nothing else is called but what undoes the execution.
pub proof fn create_contract_calls<'a>(
    base: int,
    function: FunctionRef,
    global: int,
    size: int,
    address: PointerOperand,
    args: Seq<Operand>,
    spec: Seq<Parameter>,
    symbol: Symbol,
    k: int,
)
    requires
        0 <= k < code::create_contract::<'a>(
            base,
            function,
            global,
            size,
            address,
            args,
            spec,
        ).len(),
    ensures
        ({
            let code = code::create_contract::<'a>(
                base,
                function,
                global,
                size,
                address,
                args,
                spec,
            );
            &&& stays_in(code, function)
            &&& ends_blocks(code, k)
            &&& code[k] is AppendBlock ==> exists|j: int|
                k < j < code.len() && #[trigger] code[j] == (Step::PositionAtEnd {
                    block: BlockRef { step: (base + k) as usize },
                })
            &&& code.last() is PositionAtEnd
            &&& !(code[k] is Return) && !(code[k] is Dispatch)
            &&& is_instruction(code[k]) || ends_block(code[k]) || code[k] is AppendBlock
                || code[k] is PositionAtEnd
            &&& all_calls(code, symbol) == once(
                symbol is Malloc || symbol is Bzero8 || symbol is Memcpy || symbol is Create
                    || symbol is Revert,
            )
        }),
{
    let e = code::creation_input(base, function, size, args, spec);
    let first: Seq<Step<'a>> = seq![Step::GlobalString { global: global as usize }];
    let last = base + 1 + e.code::<'a>().len();
    let finish = code::finish_creation::<'a>(
        last,
        function,
        global + 1,
        address,
        e.start(),
        e.length(),
    );
    let input = first + e.code::<'a>();
    let n = input.len() as int;
    let code = input + finish;
    assert(code == code::create_contract::<'a>(base, function, global, size, address, args, spec));
    encode_calls(e, symbol);
    lemma_no_calls(first, 1, symbol);
    lemma_parts(first, e.code::<'a>(), function, symbol, 0, all_calls(e.code::<'a>(), symbol));
    lemma_finish_creation_calls(
        last,
        function,
        global + 1,
        address,
        e.start(),
        e.length(),
        symbol,
    );
    lemma_calls_add_up(input, finish, symbol);
    assert forall|i: int| 0 <= i < code.len() implies belongs_to(#[trigger] code[i], function) by {
        if i < n {
            assert(code[i] == input[i]);
        } else {
            assert(code[i] == finish[i - n]);
        }
    }
    lemma_finish_creation_shape(
        last,
        function,
        global + 1,
        address,
        e.start(),
        e.length(),
        k - n,
    );
    if k < n {
        assert(code[k] == input[k]);
        assert(k + 1 < n ==> code[k + 1] == input[k + 1]);
    } else {
        assert(code[k] == finish[k - n]);
        if k > n {
            assert(code[k - 1] == finish[k - 1 - n]);
        }
        if k + 1 < code.len() {
            assert(code[k + 1] == finish[k + 1 - n]);
        }
        if code[k] is AppendBlock {
            let j = choose|j: int|
                k - n < j < finish.len() && #[trigger] finish[j] == (Step::PositionAtEnd {
                    block: BlockRef { step: (last + k - n) as usize },
                });
            assert(code[n + j] == finish[j]);
        }
    }
}

proof fn lemma_finish_creation_calls<'a>(
    base: int,
    function: FunctionRef,
    global: int,
    address: PointerOperand,
    input: PointerOperand,
    length: IntOperand,
    symbol: Symbol,
)
    ensures
        all_calls(
            code::finish_creation::<'a>(base, function, global, address, input, length),
            symbol,
        ) == once(symbol is Create || symbol is Revert),
{
    let s = code::finish_creation::<'a>(base, function, global, address, input, length);
    let one = s.take(7);
    let two = s.skip(7);
    assert(s =~= one + two);
    reveal_with_fuel(call_count, 8);
    lemma_calls_add_up(one, two, symbol);
}

proof fn lemma_finish_creation_shape<'a>(
    base: int,
    function: FunctionRef,
    global: int,
    address: PointerOperand,
    input: PointerOperand,
    length: IntOperand,
    k: int,
)
    ensures
        ({
            let s = code::finish_creation::<'a>(base, function, global, address, input, length);
            &&& s.len() == 10
            &&& stays_in(s, function)
            &&& is_instruction(s[0])
            &&& s.last() is PositionAtEnd
            &&& 0 <= k < 10 ==> {
                &&& ends_blocks(s, k)
                &&& s[k] is AppendBlock ==> exists|j: int|
                    k < j < s.len() && #[trigger] s[j] == (Step::PositionAtEnd {
                        block: BlockRef { step: (base + k) as usize },
                    })
                &&& !(s[k] is Return) && !(s[k] is Dispatch)
                &&& is_instruction(s[k]) || ends_block(s[k]) || s[k] is AppendBlock
                    || s[k] is PositionAtEnd
            }
        }),
{
    let s = code::finish_creation::<'a>(base, function, global, address, input, length);
    assert(s[6] is PositionAtEnd && s[9] is PositionAtEnd);
}

/// The name that the step gives to its value or its block.
pub open spec fn name_of(step: Step) -> Seq<char> {
    match step {
        Step::AppendBlock { name, .. } => name@,
        Step::Call { name, .. } => name@,
        Step::IntEqual { name, .. } => name@,
        Step::PointerCast { name, .. } => name@,
        Step::PointerCastLike { name, .. } => name@,
        Step::Alloca { name, .. } => name@,
        Step::ArrayAlloca { name, .. } => name@,
        Step::Load { name, .. } => name@,
        _ => ""@,
    }
}

/// Values are named after what they are: stack space for a value and its bytes, a buffer and
/// the integer that is loaded from it, what is hashed and where the hash goes, and the size
/// of return data. No other value of these operations has a name, and none of them emits
/// anything but the instructions that are counted here.
pub proof fn values_are_named<'a>(
    base: int,
    slot: PointerOperand,
    dest: PointerOperand,
    length: IntOperand,
    width: u32,
    global: int,
    k: int,
)
    ensures
        code::clear_storage::<'a>(base, slot).len() == 5,
        0 <= k < 5 ==> name_of(code::clear_storage::<'a>(base, slot)[k]) == if k == 0 {
            "value"@
        } else if k == 1 {
            "value8"@
        } else {
            ""@
        },
        code::set_storage::<'a>(base, slot, dest, width).len() == if width == 256 {
            3int
        } else {
            8int
        },
        width == 256 && 0 <= k < 3 ==> name_of(
            code::set_storage::<'a>(base, slot, dest, width)[k],
        ) == ""@,
        width != 256 && 0 <= k < 8 ==> name_of(
            code::set_storage::<'a>(base, slot, dest, width)[k],
        ) == if k == 0 || k == 3 {
            "value"@
        } else if k == 1 {
            "value8"@
        } else {
            ""@
        },
        code::get_storage_int::<'a>(base, slot, width).len() == 6,
        0 <= k < 6 ==> name_of(code::get_storage_int::<'a>(base, slot, width)[k]) == if k == 0 {
            "buf"@
        } else if k == 5 {
            "loaded_int"@
        } else {
            ""@
        },
        code::keccak256_hash::<'a>(base, slot, length, dest).len() == 3,
        0 <= k < 3 ==> name_of(code::keccak256_hash::<'a>(base, slot, length, dest)[k]) == if k
            == 0 {
            "src"@
        } else if k == 1 {
            "dest"@
        } else {
            ""@
        },
        code::return_data::<'a>(base).len() == 3,
        0 <= k < 3 ==> name_of(code::return_data::<'a>(base)[k]) == if k == 0 {
            "returndatasize"@
        } else {
            ""@
        },
        code::print::<'a>(slot, length).len() == 1,
        name_of(code::print::<'a>(slot, length)[0]) == ""@,
        code::return_abi::<'a>(slot, length).len() == 2,
        name_of(code::return_abi::<'a>(slot, length)[0]) == ""@,
        code::return_empty_abi::<'a>().len() == 2,
        name_of(code::return_empty_abi::<'a>()[0]) == ""@,
        code::assert_failure::<'a>(slot, length).len() == 2,
        name_of(code::assert_failure::<'a>(slot, length)[0]) == ""@,
        code::external_call::<'a>(base, slot, length, dest, global).len() == 2,
        name_of(code::external_call::<'a>(base, slot, length, dest, global)[1]) == ""@,
{
}

/// Blocks and sizes are named after what they are for, and nothing else is named, in the
/// preludes and in what follows a creation.
pub proof fn blocks_are_named<'a>(
    base: int,
    function: FunctionRef,
    global: int,
    address: PointerOperand,
    input: PointerOperand,
    length: IntOperand,
    k: int,
)
    ensures
        code::runtime_prelude::<'a>(base, function).len() == 7,
        0 <= k < 7 ==> name_of(code::runtime_prelude::<'a>(base, function)[k]) == if k == 0 {
            "entry"@
        } else if k == 3 {
            "calldatasize"@
        } else {
            ""@
        },
        code::deployer_prelude::<'a>(base, function).len() == 8,
        0 <= k < 8 ==> name_of(code::deployer_prelude::<'a>(base, function)[k]) == if k == 0 {
            "entry"@
        } else if k == 3 {
            "codesize"@
        } else {
            ""@
        },
        0 <= k < 10 ==> name_of(
            code::finish_creation::<'a>(base, function, global, address, input, length)[k],
        ) == if k == 2 || k == 3 {
            "success"@
        } else if k == 4 {
            "bail"@
        } else {
            ""@
        },
{
}

/// An encoding takes two steps to measure an argument and one to write it, four for a
/// selector, four for constant bytes, and four for the rest. It names none of its values.
pub proof fn encode_emits<'a>(e: Encoding, k: int)
    requires
        0 <= k < e.code::<'a>().len(),
    ensures
        e.code::<'a>().len() == 3 * e.spec.len() + 4 * once(e.selector is Some) + 4 * once(
            e.constant is Some,
        ) + 4,
        name_of(e.code::<'a>()[k]) == ""@,
{
    let n = e.spec.len() as int;
    let code = e.code::<'a>();
    if k < 2 * n {
        assert(code[k] == e.add_arguments::<'a>(n)[k]);
    } else if k >= e.head::<'a>().len() {
        assert(code[k] == e.write_arguments::<'a>(n)[k - e.head::<'a>().len()]);
    }
}

} // verus!
