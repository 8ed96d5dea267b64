//! What emitted code does when it runs on an ewasm host.
//!
//! The machine runs steps in the order in which they were emitted. A step that was
//! emitted into another block than the one that runs is passed over, so the branches of
//! a run go forward only. The records of the heap allocator are not part of the memory.
use crate::ir::{
    FunctionRef, IntOperand, List, Operand, Pointee, PointerOperand, Step, Symbol,
    i32_const, null_bytes,
};
use vstd::arithmetic::div_mod::lemma_small_mod;
use vstd::arithmetic::power2::{lemma_pow2_adds, lemma2_to64, pow2};
use vstd::prelude::*;

verus! {

/// The number of addresses.
pub open spec fn address_space() -> int {
    0x1_0000_0000
}

/// The number of bytes that an integer of `width` bits takes in memory.
pub open spec fn bytes_of(width: u32) -> nat {
    ((width + 7) / 8) as nat
}

/// The number whose bytes these are, low byte first.
pub open spec fn number(bytes: Seq<u8>) -> int
    decreases bytes.len(),
{
    if bytes.len() == 0 {
        0
    } else {
        bytes[0] + 256 * number(bytes.drop_first())
    }
}

/// The low `n` bytes of a number, low byte first.
pub open spec fn le_bytes(value: int, n: nat) -> Seq<u8>
    decreases n,
{
    if n == 0 {
        seq![]
    } else {
        seq![(value % 256) as u8] + le_bytes(value / 256, (n - 1) as nat)
    }
}

/// So many bytes zero.
pub open spec fn zeros(n: nat) -> Seq<u8> {
    Seq::new(n, |i: int| 0u8)
}

/// What the memory holds at each address.
pub type Memory = spec_fn(int) -> u8;

/// The `n` bytes at the address.
pub open spec fn read(memory: Memory, address: int, n: nat) -> Seq<u8> {
    Seq::new(n, |i: int| memory(address + i))
}

/// The memory with these bytes at the address.
pub open spec fn write(memory: Memory, address: int, bytes: Seq<u8>) -> Memory {
    |a: int|
        if address <= a < address + bytes.len() {
            bytes[a - address]
        } else {
            memory(a)
        }
}

/// What the storage holds in each slot. A slot's name and its contents are 32 bytes.
pub type Storage = spec_fn(Seq<u8>) -> Seq<u8>;

/// The storage with `value` in the slot.
pub open spec fn store(storage: Storage, slot: Seq<u8>, value: Seq<u8>) -> Storage {
    |s: Seq<u8>|
        if s == slot {
            value
        } else {
            storage(s)
        }
}

/// How a call of another contract or a creation ended.
pub ghost struct Reply {
    /// Zero for success.
    pub status: int,
    /// What it returned.
    pub data: Seq<u8>,
    /// The address of a created contract, 20 bytes.
    pub address: Seq<u8>,
    /// The storage of this contract, which the other one may have called back.
    pub storage: Storage,
}

/// A call of another contract or a creation. `balance` is the balance that goes with it, an
/// integer of 128 bits; `address` is empty for a creation.
pub ghost struct Message {
    pub gas: int,
    pub address: Seq<u8>,
    pub balance: Seq<u8>,
    pub input: Seq<u8>,
}

/// What the run is given by the host, the allocator and the rest of the compiler.
pub ghost struct World<'a> {
    pub call_data: Seq<u8>,
    pub code: Seq<u8>,
    /// The address of what a step allocates or of the global that it adds.
    pub address: spec_fn(int) -> int,
    /// The contents of the globals.
    pub globals: Seq<Seq<u8>>,
    /// What a step's call or creation comes to.
    pub reply: spec_fn(int) -> Reply,
    /// The number of bytes that a `DynamicLength` step finds.
    pub dynamic_length: spec_fn(int) -> int,
    /// The hash function.
    pub digest: spec_fn(Seq<u8>) -> Seq<u8>,
    /// What the code of the rest of the compiler does.
    pub other: spec_fn(Machine, int, Step<'a>) -> Machine,
}

/// Where a run stands.
pub ghost enum Status {
    /// It goes on with the next step.
    Running,
    /// It goes on with the block that this step appended.
    Jumped(int),
    /// It returned from its function.
    Returned,
    /// It ended, with this data.
    Finished(Seq<u8>),
    /// It was undone, with this data.
    Reverted(Seq<u8>),
    /// It did what it must not do.
    Trapped,
}

/// The state of a run.
pub ghost struct Machine {
    pub status: Status,
    /// What the steps have yielded. An integer is less than two to the power of its
    /// width; a pointer is an address.
    pub registers: spec_fn(int, int) -> int,
    pub memory: Memory,
    pub storage: Storage,
    pub return_data: Seq<u8>,
    pub printed: Seq<Seq<u8>>,
    pub messages: Seq<Message>,
}

impl Machine {
    /// The integer's value.
    pub open spec fn int_of(self, value: IntOperand) -> int {
        match value {
            IntOperand::Const { width, value } => value as int % pow2(width as nat) as int,
            IntOperand::Register { register, .. } => (self.registers)(
                register.step as int,
                register.part as int,
            ),
        }
    }

    /// The pointer's address.
    pub open spec fn address_of(self, value: PointerOperand) -> int {
        match value {
            PointerOperand::Null { .. } => 0,
            PointerOperand::Register { register, .. } => (self.registers)(
                register.step as int,
                register.part as int,
            ),
        }
    }

    /// The argument's value or address.
    pub open spec fn value_of(self, value: Operand) -> int {
        match value {
            Operand::Int(v) => self.int_of(v),
            Operand::Pointer(v) => self.address_of(v),
            Operand::Other(register) => (self.registers)(
                register.step as int,
                register.part as int,
            ),
        }
    }

    /// The `n` bytes at the address.
    pub open spec fn bytes(self, address: int, n: int) -> Seq<u8> {
        read(
            self.memory,
            address,
            if n < 0 {
                0
            } else {
                n as nat
            },
        )
    }

    /// The integer of `width` bits at the address.
    pub open spec fn integer_at(self, address: int, width: u32) -> int {
        number(self.bytes(address, bytes_of(width) as int)) % pow2(width as nat) as int
    }

    /// The machine with the value for the first result of step number `k`.
    pub open spec fn yielding(self, k: int, value: int) -> Machine {
        Machine {
            registers: |step: int, part: int|
                if step == k && part == 0 {
                    value
                } else {
                    (self.registers)(step, part)
                },
            ..self
        }
    }

    /// The machine with the bytes at the address.
    pub open spec fn writing(self, address: int, bytes: Seq<u8>) -> Machine {
        Machine { memory: write(self.memory, address, bytes), ..self }
    }

    /// The machine with the part of `data` at the address; it traps where `data` is shorter.
    pub open spec fn copying(self, address: int, data: Seq<u8>, offset: int, n: int) -> Machine {
        if offset + n <= data.len() {
            self.writing(address, data.subrange(offset, offset + n))
        } else {
            Machine { status: Status::Trapped, ..self }
        }
    }
}

/// The values of the arguments.
pub open spec fn values_of(m: Machine, args: List<Operand>) -> Seq<int> {
    match args {
        List::Zero => seq![],
        List::One(a) => seq![m.value_of(a)],
        List::Two(a, b) => seq![m.value_of(a), m.value_of(b)],
        List::Three(a, b, c) => seq![m.value_of(a), m.value_of(b), m.value_of(c)],
        List::Four(a, b, c, d) => seq![
            m.value_of(a),
            m.value_of(b),
            m.value_of(c),
            m.value_of(d),
        ],
        List::Five(a, b, c, d, e) => seq![
            m.value_of(a),
            m.value_of(b),
            m.value_of(c),
            m.value_of(d),
            m.value_of(e),
        ],
    }
}

/// What step number `k`, a call of a function with a fixed name, does.
#[verifier::opaque]
pub open spec fn call<'a>(w: World<'a>, m: Machine, k: int, symbol: Symbol, args: Seq<int>) -> Machine {
    match symbol {
        Symbol::StorageStore => Machine {
            storage: store(m.storage, m.bytes(args[0], 32), m.bytes(args[1], 32)),
            ..m
        },
        Symbol::StorageLoad => m.writing(args[1], (m.storage)(m.bytes(args[0], 32))),
        Symbol::GetCallDataSize => m.yielding(k, w.call_data.len() as int),
        Symbol::GetCodeSize => m.yielding(k, w.code.len() as int),
        Symbol::GetReturnDataSize => m.yielding(k, m.return_data.len() as int),
        Symbol::CallDataCopy => m.copying(args[0], w.call_data, args[1], args[2]),
        Symbol::CodeCopy => m.copying(args[0], w.code, args[1], args[2]),
        Symbol::ReturnDataCopy => m.copying(args[0], m.return_data, args[1], args[2]),
        Symbol::PrintMem => Machine {
            printed: m.printed.push(m.bytes(args[0], args[1])),
            ..m
        },
        Symbol::Create => {
            let reply = (w.reply)(k);
            let message = Message {
                gas: 0,
                address: seq![],
                balance: m.bytes(args[0], 16),
                input: m.bytes(args[1], args[2]),
            };
            let sent = Machine {
                messages: m.messages.push(message),
                return_data: reply.data,
                storage: reply.storage,
                ..m.yielding(k, reply.status)
            };
            if reply.status == 0 {
                sent.writing(args[3], reply.address)
            } else {
                sent
            }
        },
        Symbol::Call => {
            let reply = (w.reply)(k);
            let message = Message {
                gas: args[0],
                address: m.bytes(args[1], 20),
                balance: m.bytes(args[2], 16),
                input: m.bytes(args[3], args[4]),
            };
            Machine {
                messages: m.messages.push(message),
                return_data: reply.data,
                storage: reply.storage,
                ..m.yielding(k, reply.status)
            }
        },
        Symbol::Finish => Machine { status: Status::Finished(m.bytes(args[0], args[1])), ..m },
        Symbol::Revert => Machine { status: Status::Reverted(m.bytes(args[0], args[1])), ..m },
        Symbol::InitHeap => m,
        Symbol::Malloc => m.yielding(k, (w.address)(k)),
        Symbol::Bzero8 => m.writing(args[0], zeros((8 * args[1]) as nat)),
        Symbol::Memcpy => m.writing(args[0], m.bytes(args[1], args[2])),
        Symbol::Sha3 => m.writing(
            args[2],
            Seq::new(args[3] as nat, |i: int| (w.digest)(m.bytes(args[0], args[1]))[i]),
        ),
        Symbol::Main => Machine { status: Status::Trapped, ..m },
    }
}

/// What step number `k` does to a running machine.
#[verifier::opaque]
pub open spec fn execute<'a>(w: World<'a>, m: Machine, k: int, step: Step<'a>) -> Machine {
    match step {
        Step::Import { .. } => m,
        Step::AddFunction { .. } => m,
        Step::SetNoReturn { .. } => m,
        Step::AppendBlock { .. } => m,
        // the block before it has no end
        Step::PositionAtEnd { .. } => Machine { status: Status::Trapped, ..m },
        Step::Call { callee: FunctionRef::Symbol(symbol), args, .. } => call(
            w,
            m,
            k,
            symbol,
            values_of(m, args),
        ),
        Step::IntAdd { lhs, rhs } => m.yielding(
            k,
            (m.int_of(lhs) + m.int_of(rhs)) % pow2(lhs.spec_width() as nat) as int,
        ),
        Step::IntSub { lhs, rhs } => m.yielding(
            k,
            (m.int_of(lhs) - m.int_of(rhs)) % pow2(lhs.spec_width() as nat) as int,
        ),
        Step::IntUnsignedDiv { lhs, rhs } => if m.int_of(rhs) == 0 {
            Machine { status: Status::Trapped, ..m }
        } else {
            m.yielding(k, m.int_of(lhs) / m.int_of(rhs))
        },
        Step::IntEqual { lhs, rhs, .. } => m.yielding(
            k,
            if m.int_of(lhs) == m.int_of(rhs) {
                1
            } else {
                0
            },
        ),
        Step::PointerCast { pointer, .. } => m.yielding(k, m.address_of(pointer)),
        Step::PointerCastLike { pointer, .. } => m.yielding(k, m.address_of(pointer)),
        Step::Alloca { .. } => m.yielding(k, (w.address)(k)),
        Step::ArrayAlloca { .. } => m.yielding(k, (w.address)(k)),
        Step::Load { pointer, width, .. } => m.yielding(
            k,
            m.integer_at(m.address_of(pointer), width),
        ),
        Step::Store { pointer, value } => m.writing(
            m.address_of(pointer),
            le_bytes(m.int_of(value), bytes_of(value.spec_width())),
        ),
        Step::Gep { pointer, index } => match pointer.spec_pointee() {
            Pointee::Int(width) => m.yielding(
                k,
                (m.address_of(pointer) + m.int_of(index) * bytes_of(width)) % address_space(),
            ),
            Pointee::Other => (w.other)(m, k, step),
        },
        Step::CondBranch { condition, then_block, else_block } => Machine {
            status: Status::Jumped(
                if m.int_of(condition) == 1 {
                    then_block.step as int
                } else {
                    else_block.step as int
                },
            ),
            ..m
        },
        Step::Return { .. } => Machine { status: Status::Returned, ..m },
        Step::Unreachable => Machine { status: Status::Trapped, ..m },
        Step::GlobalString { global } => m.writing(
            (w.address)(k),
            w.globals[global as int],
        ).yielding(k, (w.address)(k)),
        Step::EmitFunctions => m,
        Step::EmitInitializer => m,
        Step::Internalize => m,
        Step::Wasm { .. } => m,
        Step::DynamicLength { .. } => m.yielding(k, (w.dynamic_length)(k)),
        _ => (w.other)(m, k, step),
    }
}

/// What step number `k` does.
pub open spec fn advance<'a>(w: World<'a>, m: Machine, k: int, step: Step<'a>) -> Machine {
    match m.status {
        Status::Running => execute(w, m, k, step),
        Status::Jumped(target) => match step {
            Step::PositionAtEnd { block } if block.step == target => Machine {
                status: Status::Running,
                ..m
            },
            _ => m,
        },
        _ => m,
    }
}

/// The machine after the first `n` of the steps, which have the numbers from `base` on.
#[verifier::opaque]
pub open spec fn run_to<'a>(
    w: World<'a>,
    m: Machine,
    base: int,
    steps: Seq<Step<'a>>,
    n: int,
) -> Machine
    decreases n,
{
    if n <= 0 {
        m
    } else {
        advance(w, run_to(w, m, base, steps, n - 1), base + n - 1, steps[n - 1])
    }
}

/// The machine after the steps, which have the numbers from `base` on.
pub open spec fn run<'a>(w: World<'a>, m: Machine, base: int, steps: Seq<Step<'a>>) -> Machine {
    run_to(w, m, base, steps, steps.len() as int)
}

/// The integer is a constant, or a step before number `base` yields it.
pub open spec fn int_before(value: IntOperand, base: int) -> bool {
    value matches IntOperand::Register { register, .. } ==> register.step < base
}

/// The pointer is null, or a step before number `base` yields it.
pub open spec fn pointer_before(value: PointerOperand, base: int) -> bool {
    value matches PointerOperand::Register { register, .. } ==> register.step < base
}

/// The value is a constant, or a step before number `base` yields it.
pub open spec fn value_before(value: Operand, base: int) -> bool {
    match value {
        Operand::Int(v) => int_before(v, base),
        Operand::Pointer(v) => pointer_before(v, base),
        Operand::Other(register) => register.step < base,
    }
}

/// The step numbers from `base` on for so many steps exist.
pub open spec fn numbered(base: int, n: int) -> bool {
    0 <= base && base + n <= usize::MAX
}

/// The areas of memory have no byte in common.
pub open spec fn apart(a: int, n: int, b: int, k: int) -> bool {
    a + n <= b || b + k <= a
}

/// What the steps before number `base` yielded is as it was.
pub open spec fn same_registers(before: Machine, after: Machine, base: int) -> bool {
    forall|step: int, part: int|
        step < base ==> #[trigger] (after.registers)(step, part) == (before.registers)(step, part)
}

/// The memory outside the area is as it was.
pub open spec fn same_memory(before: Machine, after: Machine, address: int, n: int) -> bool {
    forall|a: int|
        !(address <= a < address + n) ==> #[trigger] (after.memory)(a) == (before.memory)(a)
}

/// A constant of 32 bits has its value, where that fits.
pub broadcast proof fn lemma_i32(m: Machine, value: u64)
    requires
        value < 0x1_0000_0000,
    ensures
        #[trigger] m.int_of(i32_const(value)) == value,
{
    lemma2_to64();
    lemma_small_mod(value as nat, pow2(32));
}

/// A running machine executes the next step.
pub proof fn lemma_next<'a>(w: World<'a>, m: Machine, base: int, steps: Seq<Step<'a>>, n: int)
    requires
        0 <= n,
        run_to(w, m, base, steps, n).status is Running,
    ensures
        run_to(w, m, base, steps, n + 1) == execute(
            w,
            run_to(w, m, base, steps, n),
            base + n,
            steps[n],
        ),
{
    reveal_with_fuel(run_to, 2);
}

/// A cast yields the address.
pub proof fn lemma_cast<'a>(w: World<'a>, m: Machine, base: int, steps: Seq<Step<'a>>, n: int)
    requires
        0 <= n,
        run_to(w, m, base, steps, n).status is Running,
        steps[n] is PointerCast || steps[n] is PointerCastLike,
    ensures
        ({
            let before = run_to(w, m, base, steps, n);
            let after = run_to(w, m, base, steps, n + 1);
            let pointer = match steps[n] {
                Step::PointerCast { pointer, .. } => pointer,
                Step::PointerCastLike { pointer, .. } => pointer,
                _ => null_bytes(),
            };
            after == before.yielding(base + n, before.address_of(pointer))
        }),
{
    lemma_next(w, m, base, steps, n);
    reveal(execute);
}

/// Stack space is where the world puts it.
pub proof fn lemma_alloca<'a>(w: World<'a>, m: Machine, base: int, steps: Seq<Step<'a>>, n: int)
    requires
        0 <= n,
        run_to(w, m, base, steps, n).status is Running,
        steps[n] is Alloca || steps[n] is ArrayAlloca,
    ensures
        ({
            let before = run_to(w, m, base, steps, n);
            let after = run_to(w, m, base, steps, n + 1);
            after == before.yielding(base + n, (w.address)(base + n))
        }),
{
    lemma_next(w, m, base, steps, n);
    reveal(execute);
}

/// A load yields the integer at the address.
pub proof fn lemma_load<'a>(w: World<'a>, m: Machine, base: int, steps: Seq<Step<'a>>, n: int)
    requires
        0 <= n,
        run_to(w, m, base, steps, n).status is Running,
        steps[n] is Load,
    ensures
        ({
            let before = run_to(w, m, base, steps, n);
            let after = run_to(w, m, base, steps, n + 1);
            steps[n] matches Step::Load { pointer, width, .. } && after == before.yielding(
                base + n,
                before.integer_at(before.address_of(pointer), width),
            )
        }),
{
    lemma_next(w, m, base, steps, n);
    reveal(execute);
}

/// A store writes the bytes of the integer.
pub proof fn lemma_store<'a>(w: World<'a>, m: Machine, base: int, steps: Seq<Step<'a>>, n: int)
    requires
        0 <= n,
        run_to(w, m, base, steps, n).status is Running,
        steps[n] is Store,
    ensures
        ({
            let before = run_to(w, m, base, steps, n);
            let after = run_to(w, m, base, steps, n + 1);
            steps[n] matches Step::Store { pointer, value } && after == before.writing(
                before.address_of(pointer),
                le_bytes(before.int_of(value), bytes_of(value.spec_width())),
            )
        }),
{
    lemma_next(w, m, base, steps, n);
    reveal(execute);
}

/// A call of a function with a fixed name does what that function does.
pub proof fn lemma_call<'a>(w: World<'a>, m: Machine, base: int, steps: Seq<Step<'a>>, n: int)
    requires
        0 <= n,
        run_to(w, m, base, steps, n).status is Running,
        steps[n] is Call,
    ensures
        ({
            let before = run_to(w, m, base, steps, n);
            let after = run_to(w, m, base, steps, n + 1);
            steps[n] matches Step::Call { callee: FunctionRef::Symbol(symbol), args, .. }
                ==> after == call(w, before, base + n, symbol, values_of(before, args))
        }),
{
    lemma_next(w, m, base, steps, n);
    reveal(execute);
}

/// A global is where the world puts it.
pub proof fn lemma_global<'a>(w: World<'a>, m: Machine, base: int, steps: Seq<Step<'a>>, n: int)
    requires
        0 <= n,
        run_to(w, m, base, steps, n).status is Running,
        steps[n] is GlobalString,
    ensures
        ({
            let before = run_to(w, m, base, steps, n);
            let after = run_to(w, m, base, steps, n + 1);
            steps[n] matches Step::GlobalString { global } && after == before.writing(
                (w.address)(base + n),
                w.globals[global as int],
            ).yielding(base + n, (w.address)(base + n))
        }),
{
    lemma_next(w, m, base, steps, n);
    reveal(execute);
}

/// The code of the rest of the compiler does what it does: the contract's own functions, the
/// dispatch, decoding and encoding.
pub proof fn lemma_other<'a>(w: World<'a>, m: Machine, base: int, steps: Seq<Step<'a>>, n: int)
    requires
        0 <= n,
        run_to(w, m, base, steps, n).status is Running,
        match steps[n] {
            Step::Call { callee, .. } => !(callee is Symbol),
            Step::CallDecoded { .. } | Step::Decode { .. } | Step::Dispatch { .. }
            | Step::EncodeTy { .. } => true,
            _ => false,
        },
    ensures
        run_to(w, m, base, steps, n + 1) == (w.other)(
            run_to(w, m, base, steps, n),
            base + n,
            steps[n],
        ),
{
    lemma_next(w, m, base, steps, n);
    reveal(execute);
}

/// Appending a block changes nothing.
pub proof fn lemma_append<'a>(w: World<'a>, m: Machine, base: int, steps: Seq<Step<'a>>, n: int)
    requires
        0 <= n,
        run_to(w, m, base, steps, n).status is Running,
        steps[n] is AppendBlock,
    ensures
        run_to(w, m, base, steps, n + 1) == run_to(w, m, base, steps, n),
{
    lemma_next(w, m, base, steps, n);
    reveal(execute);
}

/// A return ends the run, and so does what must not be reached.
pub proof fn lemma_stop<'a>(w: World<'a>, m: Machine, base: int, steps: Seq<Step<'a>>, n: int)
    requires
        0 <= n,
        run_to(w, m, base, steps, n).status is Running,
        steps[n] is Return || steps[n] is Unreachable,
    ensures
        run_to(w, m, base, steps, n + 1) == (Machine {
            status: if steps[n] is Return {
                Status::Returned
            } else {
                Status::Trapped
            },
            ..run_to(w, m, base, steps, n)
        }),
{
    lemma_next(w, m, base, steps, n);
    reveal(execute);
}

/// A step that is not in the block where the machine goes on changes nothing.
pub proof fn lemma_pass<'a>(w: World<'a>, m: Machine, base: int, steps: Seq<Step<'a>>, n: int)
    requires
        0 <= n,
        run_to(w, m, base, steps, n).status is Jumped,
        run_to(w, m, base, steps, n).status matches Status::Jumped(target) && !(steps[n] matches
            Step::PositionAtEnd { block } && block.step == target),
    ensures
        run_to(w, m, base, steps, n + 1) == run_to(w, m, base, steps, n),
{
    reveal_with_fuel(run_to, 2);
}

/// The machine goes on where its block begins.
pub proof fn lemma_land<'a>(w: World<'a>, m: Machine, base: int, steps: Seq<Step<'a>>, n: int)
    requires
        0 <= n,
        steps[n] matches Step::PositionAtEnd { block } && run_to(w, m, base, steps, n).status
            == Status::Jumped(block.step as int),
    ensures
        run_to(w, m, base, steps, n + 1) == (Machine {
            status: Status::Running,
            ..run_to(w, m, base, steps, n)
        }),
{
    reveal_with_fuel(run_to, 2);
}

/// The run is over.
pub open spec fn ended(m: Machine) -> bool {
    !(m.status is Running) && !(m.status is Jumped)
}

/// A run that is over stays as it is.
pub proof fn lemma_ended<'a>(
    w: World<'a>,
    m: Machine,
    base: int,
    steps: Seq<Step<'a>>,
    n: int,
    end: int,
)
    requires
        0 <= n <= end,
        ended(run_to(w, m, base, steps, n)),
    ensures
        run_to(w, m, base, steps, end) == run_to(w, m, base, steps, n),
    decreases end - n,
{
    reveal_with_fuel(run_to, 2);
    if n < end {
        lemma_ended(w, m, base, steps, n, end - 1);
    }
}

/// No step leaves the machine as it is.
pub proof fn lemma_none<'a>(w: World<'a>, m: Machine, base: int, steps: Seq<Step<'a>>)
    ensures
        run_to(w, m, base, steps, 0) == m,
{
    reveal_with_fuel(run_to, 1);
}

/// Steps one after the other: the second ones run where the first ones end.
pub proof fn lemma_run_both<'a>(
    w: World<'a>,
    m: Machine,
    base: int,
    first: Seq<Step<'a>>,
    second: Seq<Step<'a>>,
)
    ensures
        run(w, m, base, first + second) == run(
            w,
            run(w, m, base, first),
            base + first.len(),
            second,
        ),
{
    lemma_run_start(w, m, base, first, second, first.len() as int);
    lemma_run_second(w, m, base, first, second, second.len() as int);
}

/// The first steps run alike whatever follows them.
pub proof fn lemma_run_start<'a>(
    w: World<'a>,
    m: Machine,
    base: int,
    first: Seq<Step<'a>>,
    second: Seq<Step<'a>>,
    n: int,
)
    requires
        n <= first.len(),
    ensures
        run_to(w, m, base, first + second, n) == run_to(w, m, base, first, n),
    decreases n,
{
    reveal_with_fuel(run_to, 2);
    if n > 0 {
        lemma_run_start(w, m, base, first, second, n - 1);
    }
}

/// The second steps run where the first ones end.
pub proof fn lemma_run_second<'a>(
    w: World<'a>,
    m: Machine,
    base: int,
    first: Seq<Step<'a>>,
    second: Seq<Step<'a>>,
    n: int,
)
    requires
        0 <= n <= second.len(),
    ensures
        run_to(w, m, base, first + second, first.len() + n) == run_to(
            w,
            run(w, m, base, first),
            base + first.len(),
            second,
            n,
        ),
    decreases n,
{
    reveal_with_fuel(run_to, 2);
    if n > 0 {
        lemma_run_second(w, m, base, first, second, n - 1);
    } else {
        lemma_run_start(w, m, base, first, second, first.len() as int);
    }
}

/// A number is what its bytes say, where it fits into them.
pub proof fn lemma_number_of_bytes(value: int, n: nat)
    requires
        0 <= value < pow2((8 * n) as nat),
    ensures
        number(le_bytes(value, n)) == value,
        le_bytes(value, n).len() == n,
    decreases n,
{
    if n == 0 {
        lemma2_to64();
    } else {
        lemma2_to64();
        lemma_pow2_adds(8, (8 * (n - 1)) as nat);
        assert(pow2((8 * n) as nat) == 256 * pow2((8 * (n - 1)) as nat));
        lemma_number_of_bytes(value / 256, (n - 1) as nat);
        let rest = le_bytes(value / 256, (n - 1) as nat);
        assert(le_bytes(value, n).drop_first() =~= rest);
    }
}

/// Bytes are those of their number.
pub proof fn lemma_bytes_of_number(bytes: Seq<u8>)
    ensures
        le_bytes(number(bytes), bytes.len()) == bytes,
    decreases bytes.len(),
{
    if bytes.len() > 0 {
        let rest = bytes.drop_first();
        lemma_bytes_of_number(rest);
        assert(number(bytes) % 256 == bytes[0]);
        assert(number(bytes) / 256 == number(rest));
        assert(seq![bytes[0]] + rest =~= bytes);
    } else {
        assert(le_bytes(number(bytes), 0) =~= bytes);
    }
}

/// A number that fits into its low bytes has zero bytes after them.
pub proof fn lemma_zero_extended(value: int, n: nat, more: nat)
    requires
        0 <= value < pow2((8 * n) as nat),
    ensures
        le_bytes(value, n + more) == le_bytes(value, n) + zeros(more),
    decreases n + more,
{
    lemma2_to64();
    if n == 0 {
        if more == 0 {
            assert(le_bytes(value, 0) =~= le_bytes(value, 0) + zeros(0));
        } else {
            lemma_zero_extended(0, 0, (more - 1) as nat);
            assert(le_bytes(value, more) =~= zeros(more));
        }
    } else {
        lemma_pow2_adds(8, (8 * (n - 1)) as nat);
        lemma_zero_extended(value / 256, (n - 1) as nat, more);
        assert(le_bytes(value, n + more) =~= le_bytes(value, n) + zeros(more));
    }
}

/// The low bytes of a number are the first ones.
pub proof fn lemma_low_bytes(value: int, n: nat, more: nat)
    ensures
        le_bytes(value, n + more).len() == n + more,
        le_bytes(value, n + more).take(n as int) == le_bytes(value, n),
    decreases n + more,
{
    if n + more == 0 {
    } else if n == 0 {
        lemma_low_bytes(value / 256, 0, (more - 1) as nat);
        assert(le_bytes(value, more).take(0) =~= le_bytes(value, 0));
    } else {
        lemma_low_bytes(value / 256, (n - 1) as nat, more);
        assert(le_bytes(value, n + more).take(n as int) =~= le_bytes(value, n));
    }
}

/// The number of some bytes fits into them.
pub proof fn lemma_number_bound(bytes: Seq<u8>)
    ensures
        0 <= number(bytes) < pow2((8 * bytes.len()) as nat),
    decreases bytes.len(),
{
    lemma2_to64();
    if bytes.len() > 0 {
        let rest = bytes.drop_first();
        lemma_number_bound(rest);
        lemma_pow2_adds(8, (8 * rest.len()) as nat);
    }
}

} // verus!
