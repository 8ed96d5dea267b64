//! Bounds: emitted code accesses no memory but what it was given and what it reserved.
use crate::code::{self, Encoding};
use crate::ir::{FunctionRef, IntOperand, PointerOperand, Step, Symbol, i32_const, null_bytes};
use crate::laws::encoding::{
    all_arguments_size, arguments_are_zeroed, arguments_at, constant_size, encode_finds_length,
    encoding_size, lemma_arguments_size, lemma_write_constant, lemma_write_selector, placed, reach,
    selector_size, sized, start_of, zeroed_size,
};
use crate::machine::{
    Machine, Status, World, bytes_of, call, execute, int_before, lemma_alloca, lemma_call,
    lemma_cast, lemma_global, lemma_i32, lemma_land, lemma_load, lemma_next, lemma_none, lemma_pass,
    lemma_run_both, lemma_run_second, lemma_run_start, lemma_store, numbered, pointer_before, run, run_to, values_of,
    zeros,
};
use vstd::arithmetic::power2::lemma2_to64;
use vstd::prelude::*;

verus! {

/// A piece of memory.
pub ghost struct Area {
    pub start: int,
    pub size: int,
}

/// The area lies within the other one.
pub open spec fn lies_in(area: Area, outer: Area) -> bool {
    outer.start <= area.start && area.start + area.size <= outer.start + outer.size
}

/// What a function with a fixed name reads and writes.
pub open spec fn accessed_by(symbol: Symbol, args: Seq<int>) -> Seq<Area> {
    match symbol {
        Symbol::StorageStore | Symbol::StorageLoad => seq![
            Area { start: args[0], size: 32 },
            Area { start: args[1], size: 32 },
        ],
        Symbol::CallDataCopy | Symbol::CodeCopy | Symbol::ReturnDataCopy => seq![
            Area { start: args[0], size: args[2] },
        ],
        Symbol::PrintMem | Symbol::Finish | Symbol::Revert => seq![
            Area { start: args[0], size: args[1] },
        ],
        Symbol::Create => seq![
            Area { start: args[0], size: 16 },
            Area { start: args[1], size: args[2] },
            Area { start: args[3], size: 20 },
        ],
        Symbol::Call => seq![
            Area { start: args[1], size: 20 },
            Area { start: args[2], size: 16 },
            Area { start: args[3], size: args[4] },
        ],
        Symbol::Bzero8 => seq![Area { start: args[0], size: 8 * args[1] }],
        Symbol::Memcpy => seq![
            Area { start: args[0], size: args[2] },
            Area { start: args[1], size: args[2] },
        ],
        Symbol::Sha3 => seq![
            Area { start: args[0], size: args[1] },
            Area { start: args[2], size: args[3] },
        ],
        _ => seq![],
    }
}

/// What the step reads and writes.
pub open spec fn accessed(m: Machine, step: Step) -> Seq<Area> {
    match step {
        Step::Call { callee: FunctionRef::Symbol(symbol), args, .. } => accessed_by(
            symbol,
            values_of(m, args),
        ),
        Step::Load { pointer, width, .. } => seq![
            Area { start: m.address_of(pointer), size: bytes_of(width) as int },
        ],
        Step::Store { pointer, value } => seq![
            Area { start: m.address_of(pointer), size: bytes_of(value.spec_width()) as int },
        ],
        _ => seq![],
    }
}

/// What step number `k` reserves: stack space, heap space or a global.
pub open spec fn reserved(w: World, m: Machine, k: int, step: Step) -> Option<Area> {
    match step {
        Step::Alloca { width, .. } => Some(
            Area { start: (w.address)(k), size: bytes_of(width) as int },
        ),
        Step::ArrayAlloca { width, count, .. } => Some(
            Area { start: (w.address)(k), size: m.int_of(count) * bytes_of(width) },
        ),
        Step::Call { callee: FunctionRef::Symbol(Symbol::Malloc), args, .. } => Some(
            Area { start: (w.address)(k), size: values_of(m, args)[0] },
        ),
        Step::GlobalString { global } => Some(
            Area { start: (w.address)(k), size: w.globals[global as int].len() as int },
        ),
        _ => None,
    }
}

/// Step `j` of the run reserves the area.
pub open spec fn reserves<'a>(
    w: World<'a>,
    m: Machine,
    base: int,
    steps: Seq<Step<'a>>,
    j: int,
    area: Area,
) -> bool {
    &&& run_to(w, m, base, steps, j).status is Running
    &&& reserved(w, run_to(w, m, base, steps, j), base + j, steps[j]) == Some(area)
}

/// The area is empty, or lies in one that was given or in one that the first `n` steps
/// reserved.
pub open spec fn is_covered<'a>(
    w: World<'a>,
    m: Machine,
    base: int,
    steps: Seq<Step<'a>>,
    n: int,
    given: Seq<Area>,
    area: Area,
) -> bool {
    ||| area.size <= 0
    ||| exists|i: int| 0 <= i < given.len() && lies_in(area, #[trigger] given[i])
    ||| exists|j: int, outer: Area|
        0 <= j < n && #[trigger] reserves(w, m, base, steps, j, outer) && lies_in(area, outer)
}

/// Step `k` of the run, where it is executed, accesses nothing but the areas that were given
/// and those that earlier steps reserved.
pub open spec fn step_in_bounds<'a>(
    w: World<'a>,
    m: Machine,
    base: int,
    steps: Seq<Step<'a>>,
    k: int,
    given: Seq<Area>,
) -> bool {
    let before = run_to(w, m, base, steps, k);
    before.status is Running ==> forall|i: int|
        0 <= i < accessed(before, steps[k]).len() ==> is_covered(
            w,
            m,
            base,
            steps,
            k,
            given,
            #[trigger] accessed(before, steps[k])[i],
        )
}

/// The run accesses nothing but the areas that were given and those that it reserved.
pub open spec fn in_bounds<'a>(
    w: World<'a>,
    m: Machine,
    base: int,
    steps: Seq<Step<'a>>,
    given: Seq<Area>,
) -> bool {
    forall|k: int|
        0 <= k < steps.len() ==> #[trigger] step_in_bounds(w, m, base, steps, k, given)
}

/// The 32 bytes at the pointer.
pub open spec fn word_at(m: Machine, pointer: PointerOperand) -> Area {
    Area { start: m.address_of(pointer), size: 32 }
}

/// The `length` bytes at the pointer.
pub open spec fn bytes_at(m: Machine, pointer: PointerOperand, length: IntOperand) -> Area {
    Area { start: m.address_of(pointer), size: m.int_of(length) }
}

/// `clear_storage` reserves 32 bytes and stays within these and the slot's name.
pub proof fn clear_storage_in_bounds<'a>(w: World<'a>, m: Machine, base: int, slot: PointerOperand)
    requires
        m.status is Running,
        numbered(base, 5),
        pointer_before(slot, base),
    ensures
        in_bounds(w, m, base, code::clear_storage(base, slot), seq![word_at(m, slot)]),
        reserves(
            w,
            m,
            base,
            code::clear_storage(base, slot),
            0,
            Area { start: (w.address)(base), size: 32 },
        ),
{
    broadcast use lemma_i32;

    let s = code::clear_storage(base, slot);
    let given = seq![word_at(m, slot)];
    let value = (w.address)(base);
    let m1 = m.yielding(base, value);
    let m2 = m1.yielding(base + 1, value);
    let m3 = m2.writing(value, zeros(32));
    let m4 = m3.yielding(base + 3, m.address_of(slot));
    lemma_none(w, m, base, s);
    lemma_alloca(w, m, base, s, 0);
    lemma_cast(w, m, base, s, 1);
    lemma_call(w, m, base, s, 2);
    assert(run_to(w, m, base, s, 3) == m3) by {
        reveal(call);
    }
    lemma_cast(w, m, base, s, 3);
    assert(run_to(w, m, base, s, 4) == m4);
    let own = Area { start: value, size: 32 };
    assert(reserves(w, m, base, s, 0, own));
    assert(given[0] == word_at(m, slot));
    assert(accessed(m2, s[2]) =~= seq![own]);
    assert(accessed(m4, s[4]) =~= seq![word_at(m, slot), own]);
    assert(step_in_bounds(w, m, base, s, 2, given));
    assert(step_in_bounds(w, m, base, s, 4, given));
}

/// `set_storage` reserves 32 bytes, none for an integer of 256 bits, and stays within these,
/// the slot's name and the integer.
#[verifier::rlimit(40)]
pub proof fn set_storage_in_bounds<'a>(
    w: World<'a>,
    m: Machine,
    base: int,
    slot: PointerOperand,
    dest: PointerOperand,
    width: u32,
)
    requires
        m.status is Running,
        numbered(base, 8),
        pointer_before(slot, base),
        pointer_before(dest, base),
        1 <= width <= 256,
    ensures
        in_bounds(
            w,
            m,
            base,
            code::set_storage(base, slot, dest, width),
            seq![
                word_at(m, slot),
                Area { start: m.address_of(dest), size: bytes_of(width) as int },
            ],
        ),
        width != 256 ==> reserves(
            w,
            m,
            base,
            code::set_storage(base, slot, dest, width),
            0,
            Area { start: (w.address)(base), size: 32 },
        ),
{
    broadcast use lemma_i32;

    let s = code::set_storage(base, slot, dest, width);
    let n = bytes_of(width);
    let held = Area { start: m.address_of(dest), size: n as int };
    let given = seq![word_at(m, slot), held];
    assert(given[0] == word_at(m, slot) && given[1] == held);
    lemma_none(w, m, base, s);
    if width == 256 {
        lemma_cast(w, m, base, s, 0);
        lemma_cast(w, m, base, s, 1);
        let m2 = m.yielding(base, m.address_of(slot)).yielding(base + 1, m.address_of(dest));
        assert(run_to(w, m, base, s, 2) == m2);
        assert(accessed(m2, s[2]) =~= seq![word_at(m, slot), held]);
        assert(step_in_bounds(w, m, base, s, 2, given));
    } else {
        let v = m.integer_at(m.address_of(dest), width);
        let value = (w.address)(base);
        let m2 = m.yielding(base, value).yielding(base + 1, value);
        let m3 = m2.writing(value, zeros(32));
        lemma_alloca(w, m, base, s, 0);
        lemma_cast(w, m, base, s, 1);
        lemma_call(w, m, base, s, 2);
        assert(run_to(w, m, base, s, 3) == m3) by {
            reveal(call);
        }
        lemma_load(w, m, base, s, 3);
        lemma_cast(w, m, base, s, 4);
        lemma_store(w, m, base, s, 5);
        lemma_cast(w, m, base, s, 6);
        let m5 = run_to(w, m, base, s, 5);
        let m7 = run_to(w, m, base, s, 7);
        let own = Area { start: value, size: 32 };
        let part = Area { start: value, size: n as int };
        assert(reserves(w, m, base, s, 0, own));
        assert(accessed(m2, s[2]) =~= seq![own]);
        assert(accessed(m3, s[3]) =~= seq![held]);
        assert(accessed(m5, s[5]) =~= seq![part]);
        assert(accessed(m7, s[7]) =~= seq![word_at(m, slot), own]);
        assert(lies_in(part, own));
        assert(step_in_bounds(w, m, base, s, 2, given));
        assert(step_in_bounds(w, m, base, s, 3, given));
        assert(step_in_bounds(w, m, base, s, 5, given));
        assert(step_in_bounds(w, m, base, s, 7, given));
    }
}

/// `get_storage_int` reserves 32 bytes, whatever the width, and stays within these and the
/// slot's name: the host's 32 bytes fit, and so does the integer that is loaded from them.
pub proof fn get_storage_int_in_bounds<'a>(
    w: World<'a>,
    m: Machine,
    base: int,
    slot: PointerOperand,
    width: u32,
)
    requires
        m.status is Running,
        numbered(base, 6),
        pointer_before(slot, base),
        1 <= width <= 256,
    ensures
        in_bounds(w, m, base, code::get_storage_int(base, slot, width), seq![word_at(m, slot)]),
        reserves(
            w,
            m,
            base,
            code::get_storage_int(base, slot, width),
            0,
            Area { start: (w.address)(base), size: 32 },
        ),
{
    broadcast use lemma_i32;

    let s = code::get_storage_int(base, slot, width);
    let given = seq![word_at(m, slot)];
    let buffer = (w.address)(base);
    let m3 = m.yielding(base, buffer).yielding(base + 1, m.address_of(slot)).yielding(
        base + 2,
        buffer,
    );
    let m4 = m3.writing(buffer, (m.storage)(m3.bytes(m.address_of(slot), 32)));
    lemma_none(w, m, base, s);
    lemma_alloca(w, m, base, s, 0);
    lemma_cast(w, m, base, s, 1);
    lemma_cast(w, m, base, s, 2);
    lemma_call(w, m, base, s, 3);
    assert(run_to(w, m, base, s, 4) == m4) by {
        reveal(call);
    }
    lemma_cast(w, m, base, s, 4);
    let m5 = m4.yielding(base + 4, buffer);
    let own = Area { start: buffer, size: 32 };
    let part = Area { start: buffer, size: bytes_of(width) as int };
    assert(reserves(w, m, base, s, 0, own)) by {
        assert(bytes_of(8) == 1);
        assert(32 * bytes_of(8) == 32);
    }
    assert(given[0] == word_at(m, slot));
    assert(accessed(m3, s[3]) =~= seq![word_at(m, slot), own]);
    assert(accessed(m5, s[5]) =~= seq![part]);
    assert(lies_in(part, own));
    assert(step_in_bounds(w, m, base, s, 3, given));
    assert(step_in_bounds(w, m, base, s, 5, given));
}

/// `keccak256_hash` stays within the bytes that it hashes and the 32 bytes of the result.
pub proof fn keccak256_hash_in_bounds<'a>(
    w: World<'a>,
    m: Machine,
    base: int,
    src: PointerOperand,
    length: IntOperand,
    dest: PointerOperand,
)
    requires
        m.status is Running,
        numbered(base, 3),
        pointer_before(src, base),
        pointer_before(dest, base),
        int_before(length, base),
    ensures
        in_bounds(
            w,
            m,
            base,
            code::keccak256_hash(base, src, length, dest),
            seq![bytes_at(m, src, length), word_at(m, dest)],
        ),
{
    broadcast use lemma_i32;

    let s = code::keccak256_hash(base, src, length, dest);
    let given = seq![bytes_at(m, src, length), word_at(m, dest)];
    lemma_none(w, m, base, s);
    lemma_cast(w, m, base, s, 0);
    lemma_cast(w, m, base, s, 1);
    let m2 = run_to(w, m, base, s, 2);
    assert(given[0] == bytes_at(m, src, length) && given[1] == word_at(m, dest));
    assert(accessed(m2, s[2]) =~= given);
    assert(step_in_bounds(w, m, base, s, 2, given));
}

/// The operations that print or end an execution stay within the bytes that they are given.
pub proof fn ends_in_bounds<'a>(
    w: World<'a>,
    m: Machine,
    base: int,
    data: PointerOperand,
    length: IntOperand,
)
    requires
        m.status is Running,
    ensures
        in_bounds(w, m, base, code::print(data, length), seq![bytes_at(m, data, length)]),
        in_bounds(w, m, base, code::return_abi(data, length), seq![bytes_at(m, data, length)]),
        in_bounds(w, m, base, code::assert_failure(data, length), seq![bytes_at(m, data, length)]),
        in_bounds(w, m, base, code::return_empty_abi(), seq![]),
{
    broadcast use lemma_i32;

    let given = seq![bytes_at(m, data, length)];
    let none = Seq::<Area>::empty();
    assert(given[0] == bytes_at(m, data, length));
    lemma_none(w, m, base, code::print(data, length));
    lemma_none(w, m, base, code::return_abi(data, length));
    lemma_none(w, m, base, code::assert_failure(data, length));
    lemma_none(w, m, base, code::return_empty_abi());
    assert(accessed(m, code::print(data, length)[0]) =~= given);
    assert(accessed(m, code::return_abi(data, length)[0]) =~= given);
    assert(accessed(m, code::assert_failure(data, length)[0]) =~= given);
    let empty = bytes_at(m, null_bytes(), i32_const(0));
    assert(empty.size == 0);
    assert(accessed(m, code::return_empty_abi()[0]) =~= seq![empty]);
    assert(step_in_bounds(w, m, base, code::print(data, length), 0, given));
    assert(step_in_bounds(w, m, base, code::return_abi(data, length), 0, given));
    assert(step_in_bounds(w, m, base, code::assert_failure(data, length), 0, given));
    assert(step_in_bounds(w, m, base, code::return_empty_abi(), 0, none));
}

/// `external_call` stays within the payload, the address and its own balance, which has the
/// 16 bytes that the host reads.
pub proof fn external_call_in_bounds<'a>(
    w: World<'a>,
    m: Machine,
    base: int,
    payload: PointerOperand,
    length: IntOperand,
    address: PointerOperand,
    global: int,
)
    requires
        m.status is Running,
        numbered(base, 2),
        0 <= global <= usize::MAX,
        global < w.globals.len(),
        w.globals[global] == code::balance(),
        pointer_before(payload, base),
        int_before(length, base),
        pointer_before(address, base),
    ensures
        in_bounds(
            w,
            m,
            base,
            code::external_call(base, payload, length, address, global),
            seq![
                bytes_at(m, payload, length),
                Area { start: m.address_of(address), size: 20 },
            ],
        ),
        code::balance() == zeros(16),
{
    let s = code::external_call(base, payload, length, address, global);
    let to = Area { start: m.address_of(address), size: 20 };
    let given = seq![bytes_at(m, payload, length), to];
    let own = Area { start: (w.address)(base), size: 16 };
    assert(code::balance() =~= zeros(16));
    lemma_none(w, m, base, s);
    lemma_global(w, m, base, s, 0);
    let m1 = run_to(w, m, base, s, 1);
    assert(reserves(w, m, base, s, 0, own));
    assert(given[0] == bytes_at(m, payload, length) && given[1] == to);
    assert(accessed(m1, s[1]) =~= seq![to, own, bytes_at(m, payload, length)]);
    assert(lies_in(own, own));
    assert(step_in_bounds(w, m, base, s, 1, given));
}

/// `return_data` reserves as many bytes as the last call returned and stays within these.
pub proof fn return_data_in_bounds<'a>(w: World<'a>, m: Machine, base: int)
    requires
        m.status is Running,
        numbered(base, 3),
    ensures
        in_bounds(w, m, base, code::return_data(base), seq![]),
        reserves(
            w,
            m,
            base,
            code::return_data(base),
            1,
            Area { start: (w.address)(base + 1), size: m.return_data.len() as int },
        ),
{
    let s = code::return_data(base);
    let given = Seq::<Area>::empty();
    let n = m.return_data.len() as int;
    let data = (w.address)(base + 1);
    let m1 = m.yielding(base, n);
    let m2 = m1.yielding(base + 1, data);
    lemma_none(w, m, base, s);
    lemma_call(w, m, base, s, 0);
    assert(run_to(w, m, base, s, 1) == m1) by {
        reveal(call);
    }
    lemma_call(w, m, base, s, 1);
    assert(run_to(w, m, base, s, 2) == m2) by {
        reveal(call);
    }
    let own = Area { start: data, size: n };
    assert(reserves(w, m, base, s, 1, own));
    assert(accessed(m2, s[2]) =~= seq![own]);
    assert(lies_in(own, own));
    assert(step_in_bounds(w, m, base, s, 2, given));
}

/// The runtime's prelude reserves as many bytes as the call data has and stays within these.
pub proof fn runtime_prelude_in_bounds<'a>(
    w: World<'a>,
    m: Machine,
    base: int,
    function: FunctionRef,
)
    requires
        m.status == Status::Jumped(base),
        numbered(base, 7),
    ensures
        in_bounds(w, m, base, code::runtime_prelude(base, function), seq![]),
        reserves(
            w,
            m,
            base,
            code::runtime_prelude(base, function),
            4,
            Area { start: (w.address)(base + 4), size: w.call_data.len() as int },
        ),
{
    let s = code::runtime_prelude(base, function);
    let given = Seq::<Area>::empty();
    let n = w.call_data.len() as int;
    let data = (w.address)(base + 4);
    let running = Machine { status: Status::Running, ..m };
    lemma_none(w, m, base, s);
    lemma_pass(w, m, base, s, 0);
    lemma_land(w, m, base, s, 1);
    lemma_call(w, m, base, s, 2);
    assert(run_to(w, m, base, s, 3) == running) by {
        reveal(call);
    }
    lemma_call(w, m, base, s, 3);
    let m4 = running.yielding(base + 3, n);
    assert(run_to(w, m, base, s, 4) == m4) by {
        reveal(call);
    }
    lemma_call(w, m, base, s, 4);
    let m5 = m4.yielding(base + 4, data);
    assert(run_to(w, m, base, s, 5) == m5) by {
        reveal(call);
    }
    let own = Area { start: data, size: n };
    assert(reserves(w, m, base, s, 4, own));
    assert(accessed(m5, s[5]) =~= seq![own]);
    assert(lies_in(own, own));
    assert(step_in_bounds(w, m, base, s, 5, given));
}

/// The deployer's prelude reserves as many bytes as follow the deployed code and stays within
/// these.
pub proof fn deployer_prelude_in_bounds<'a>(
    w: World<'a>,
    m: Machine,
    base: int,
    function: FunctionRef,
)
    requires
        m.status == Status::Jumped(base),
        numbered(base, 8),
        0x4000 <= w.code.len() < 0x1_0000_0000,
    ensures
        in_bounds(w, m, base, code::deployer_prelude(base, function), seq![]),
        reserves(
            w,
            m,
            base,
            code::deployer_prelude(base, function),
            5,
            Area { start: (w.address)(base + 5), size: w.code.len() - 0x4000 },
        ),
{
    broadcast use lemma_i32;

    let s = code::deployer_prelude(base, function);
    let given = Seq::<Area>::empty();
    let n = w.code.len() - 0x4000;
    let data = (w.address)(base + 5);
    let running = Machine { status: Status::Running, ..m };
    lemma_none(w, m, base, s);
    lemma_pass(w, m, base, s, 0);
    lemma_land(w, m, base, s, 1);
    lemma_call(w, m, base, s, 2);
    assert(run_to(w, m, base, s, 3) == running) by {
        reveal(call);
    }
    lemma_call(w, m, base, s, 3);
    let m4 = running.yielding(base + 3, w.code.len() as int);
    assert(run_to(w, m, base, s, 4) == m4) by {
        reveal(call);
    }
    lemma_next(w, m, base, s, 4);
    let m5 = m4.yielding(base + 4, n);
    assert(n % 0x1_0000_0000 == n);
    assert(run_to(w, m, base, s, 5) == m5) by {
        lemma2_to64();
        reveal(execute);
    }
    lemma_call(w, m, base, s, 5);
    let m6 = m5.yielding(base + 5, data);
    assert(run_to(w, m, base, s, 6) == m6) by {
        reveal(call);
    }
    let own = Area { start: data, size: n };
    assert(reserves(w, m, base, s, 5, own));
    assert(accessed(m6, s[6]) =~= seq![own]);
    assert(lies_in(own, own));
    assert(step_in_bounds(w, m, base, s, 6, given));
}

/// One of the steps of the run reserves the area.
spec fn is_reserved<'a>(
    w: World<'a>,
    m: Machine,
    base: int,
    steps: Seq<Step<'a>>,
    area: Area,
) -> bool {
    exists|j: int| 0 <= j < steps.len() && #[trigger] reserves(w, m, base, steps, j, area)
}

/// Steps that access nothing stay in bounds.
proof fn lemma_no_access<'a>(
    w: World<'a>,
    m: Machine,
    base: int,
    steps: Seq<Step<'a>>,
    given: Seq<Area>,
)
    requires
        forall|k: int|
            0 <= k < steps.len() ==> !(#[trigger] steps[k] is Call) && !(steps[k] is Load) && !(
            steps[k] is Store),
    ensures
        in_bounds(w, m, base, steps, given),
{
    assert forall|k: int| 0 <= k < steps.len() implies #[trigger] step_in_bounds(
        w,
        m,
        base,
        steps,
        k,
        given,
    ) by {
        assert(!(steps[k] is Call));
    }
}

/// Steps one after the other stay in bounds where both do, and the second ones may use what
/// the first ones reserved.
proof fn lemma_both_in_bounds<'a>(
    w: World<'a>,
    m: Machine,
    base: int,
    first: Seq<Step<'a>>,
    second: Seq<Step<'a>>,
    given: Seq<Area>,
    more: Seq<Area>,
)
    requires
        in_bounds(w, m, base, first, given),
        in_bounds(w, run(w, m, base, first), base + first.len(), second, given + more),
        forall|i: int|
            0 <= i < more.len() ==> is_reserved(w, m, base, first, #[trigger] more[i]),
    ensures
        in_bounds(w, m, base, first + second, given),
{
    let all = first + second;
    let n = first.len() as int;
    let middle = run(w, m, base, first);
    assert forall|k: int| 0 <= k < all.len() implies #[trigger] step_in_bounds(
        w,
        m,
        base,
        all,
        k,
        given,
    ) by {
        let before = run_to(w, m, base, all, k);
        if before.status is Running {
            let areas = accessed(before, all[k]);
            if k < n {
                lemma_run_start(w, m, base, first, second, k);
                assert(step_in_bounds(w, m, base, first, k, given));
                assert(all[k] == first[k]);
            } else {
                lemma_run_second(w, m, base, first, second, k - n);
                assert(step_in_bounds(w, middle, base + n, second, k - n, given + more));
                assert(all[k] == second[k - n]);
            }
            assert forall|i: int| 0 <= i < areas.len() implies is_covered(
                w,
                m,
                base,
                all,
                k,
                given,
                #[trigger] areas[i],
            ) by {
                if k < n {
                    lemma_covered_start(w, m, base, first, second, k, given, areas[i]);
                } else {
                    lemma_covered_second(w, m, base, first, second, k - n, given, more, areas[i]);
                }
            }
        }
    }
}

proof fn lemma_covered_start<'a>(
    w: World<'a>,
    m: Machine,
    base: int,
    first: Seq<Step<'a>>,
    second: Seq<Step<'a>>,
    k: int,
    given: Seq<Area>,
    area: Area,
)
    requires
        0 <= k <= first.len(),
        is_covered(w, m, base, first, k, given, area),
    ensures
        is_covered(w, m, base, first + second, k, given, area),
{
    if exists|j: int, outer: Area|
        0 <= j < k && #[trigger] reserves(w, m, base, first, j, outer) && lies_in(area, outer) {
        let (j, outer) = choose|j: int, outer: Area|
            0 <= j < k && #[trigger] reserves(w, m, base, first, j, outer) && lies_in(area, outer);
        lemma_run_start(w, m, base, first, second, j);
        assert((first + second)[j] == first[j]);
        assert(reserves(w, m, base, first + second, j, outer));
    }
}

proof fn lemma_covered_second<'a>(
    w: World<'a>,
    m: Machine,
    base: int,
    first: Seq<Step<'a>>,
    second: Seq<Step<'a>>,
    k: int,
    given: Seq<Area>,
    more: Seq<Area>,
    area: Area,
)
    requires
        0 <= k <= second.len(),
        is_covered(
            w,
            run(w, m, base, first),
            base + first.len(),
            second,
            k,
            given + more,
            area,
        ),
        forall|i: int|
            0 <= i < more.len() ==> is_reserved(w, m, base, first, #[trigger] more[i]),
    ensures
        is_covered(w, m, base, first + second, first.len() + k, given, area),
{
    let all = first + second;
    let n = first.len() as int;
    let middle = run(w, m, base, first);
    if area.size > 0 {
        if exists|i: int| 0 <= i < (given + more).len() && lies_in(area, #[trigger] (given + more)[i]) {
            let i = choose|i: int|
                0 <= i < (given + more).len() && lies_in(area, #[trigger] (given + more)[i]);
            if i < given.len() {
                assert(lies_in(area, given[i]));
            } else {
                let outer = more[i - given.len()];
                assert(is_reserved(w, m, base, first, outer));
                let j = choose|j: int| 0 <= j < n && #[trigger] reserves(
                    w,
                    m,
                    base,
                    first,
                    j,
                    outer,
                );
                lemma_run_start(w, m, base, first, second, j);
                assert(all[j] == first[j]);
                assert(reserves(w, m, base, all, j, outer));
                assert(lies_in(area, outer));
            }
        } else {
            let (j, outer) = choose|j: int, outer: Area|
                0 <= j < k && #[trigger] reserves(w, middle, base + n, second, j, outer) && lies_in(
                    area,
                    outer,
                );
            lemma_run_second(w, m, base, first, second, j);
            assert(all[n + j] == second[j]);
            assert(reserves(w, m, base, all, n + j, outer));
        }
    }
}

/// The constant bytes of an encoding, where they are.
pub open spec fn constant_area(m: Machine, e: Encoding) -> Seq<Area> {
    match e.constant {
        Some((code, len)) => seq![Area { start: m.address_of(code), size: len as int }],
        None => seq![],
    }
}

/// The area of an encoding.
pub open spec fn encoding_area(w: World, e: Encoding) -> Area {
    Area { start: start_of(w, e), size: encoding_size(w, e) }
}

proof fn lemma_selector_in_bounds<'a>(w: World<'a>, m: Machine, e: Encoding, given: Seq<Area>)
    requires
        m.status is Running,
        numbered(e.allocation(), 5),
        m.address_of(e.start()) == start_of(w, e),
        encoding_size(w, e) >= selector_size(e),
        given.len() > 0,
        given.last() == encoding_area(w, e),
    ensures
        in_bounds(w, m, e.allocation() + 1, e.write_selector(), given),
{
    let s = e.write_selector::<'a>();
    let base = e.allocation() + 1;
    lemma_none(w, m, base, s);
    if e.selector is Some {
        lemma_cast(w, m, base, s, 0);
        let m1 = run_to(w, m, base, s, 1);
        let part = Area { start: start_of(w, e), size: 4 };
        assert(bytes_of(32) == 4);
        assert(accessed(m1, s[1]) =~= seq![part]);
        assert(lies_in(part, given[given.len() - 1]));
        assert(step_in_bounds(w, m, base, s, 1, given));
    }
}

proof fn lemma_constant_in_bounds<'a>(w: World<'a>, m: Machine, e: Encoding, given: Seq<Area>)
    requires
        m.status is Running,
        sized(w, e),
        m.address_of(e.constant_start()) == start_of(w, e) + selector_size(e),
        encoding_size(w, e) >= selector_size(e) + constant_size(e),
        given.len() > 0,
        given.last() == encoding_area(w, e),
        e.constant is Some ==> given.len() > 1 && given[0] == constant_area(m, e)[0],
    ensures
        in_bounds(w, m, e.selector_written(), e.write_constant(), given),
{
    broadcast use lemma_i32;

    let s = e.write_constant::<'a>();
    let base = e.selector_written();
    lemma_none(w, m, base, s);
    if let Some((code, len)) = e.constant {
        lemma_cast(w, m, base, s, 0);
        let m1 = run_to(w, m, base, s, 1);
        let to = Area { start: start_of(w, e) + selector_size(e), size: len as int };
        assert(accessed(m1, s[1]) =~= seq![to, constant_area(m, e)[0]]);
        assert(lies_in(to, given[given.len() - 1]));
        assert(lies_in(constant_area(m, e)[0], given[0]));
        assert(step_in_bounds(w, m, base, s, 1, given));
    }
}

proof fn lemma_clear_in_bounds<'a>(w: World<'a>, m: Machine, e: Encoding, given: Seq<Area>)
    requires
        m.status is Running,
        sized(w, e),
        m.int_of(e.selector_length()) == selector_size(e) + all_arguments_size(w, e),
        m.address_of(e.arguments_start()) == arguments_at(w, e),
        reach(w, e) == encoding_size(w, e),
        given.len() > 0,
        given.last() == encoding_area(w, e),
    ensures
        in_bounds(w, m, e.constant_written(), e.clear_arguments(), given),
{
    broadcast use lemma_i32;

    let s = e.clear_arguments::<'a>();
    let base = e.constant_written();
    lemma_none(w, m, base, s);
    lemma_next(w, m, base, s, 0);
    let m1 = m.yielding(base, (selector_size(e) + all_arguments_size(w, e)) / 8);
    assert(run_to(w, m, base, s, 1) == m1) by {
        reveal(execute);
    }
    let part = Area { start: arguments_at(w, e), size: zeroed_size(w, e) };
    assert(accessed(m1, s[1]) =~= seq![part]);
    assert(lies_in(part, given[given.len() - 1]));
    assert(step_in_bounds(w, m, base, s, 1, given));
}

/// An encoding reserves exactly as many bytes as it has, and up to its first argument, where
/// the size of the arguments is a multiple of eight, nothing is accessed but these and the
/// constant bytes.
#[verifier::rlimit(60)]
pub proof fn encode_in_bounds<'a>(w: World<'a>, m: Machine, e: Encoding)
    requires
        m.status is Running,
        sized(w, e),
        placed(w, m, e),
        all_arguments_size(w, e) % 8 == 0,
    ensures
        in_bounds(w, m, e.base, e.head(), constant_area(m, e)),
        reserves(
            w,
            m,
            e.base,
            e.head(),
            e.allocation() - e.base,
            Area { start: start_of(w, e), size: encoding_size(w, e) },
        ),
{
    let own = encoding_area(w, e);
    let given = constant_area(m, e);
    let more = seq![own];
    let base = e.allocation();
    let lengths = e.lengths::<'a>();
    let allocate = e.allocate::<'a>();
    let rest = e.write_selector::<'a>() + e.write_constant::<'a>();
    lemma_arguments_size(w, e, 0);
    arguments_are_zeroed(w, m, e);
    encode_finds_length(w, m, e);
    let m1 = run(w, m, e.base, lengths);
    assert(lengths.len() == base - e.base);
    lemma_no_access(w, m, e.base, lengths, given);
    // the allocation
    lemma_none(w, m1, base, allocate);
    lemma_call(w, m1, base, allocate, 0);
    let m2 = m1.yielding(base, start_of(w, e));
    assert(run(w, m1, base, allocate) == m2) by {
        reveal(call);
    }
    assert(accessed(m1, allocate[0]) =~= seq![]);
    assert(step_in_bounds(w, m1, base, allocate, 0, given));
    assert(reserves(w, m1, base, allocate, 0, own));
    let empty = Seq::<Area>::empty();
    assert(given + empty =~= given);
    lemma_both_in_bounds(w, m, e.base, lengths, allocate, given, empty);
    let head = lengths + allocate;
    lemma_run_both(w, m, e.base, lengths, allocate);
    let at = lengths.len() as int;
    assert(reserves(w, m, e.base, head, at, own)) by {
        lemma_run_second(w, m, e.base, lengths, allocate, 0);
        assert(head[at] == allocate[0]);
    }
    // the selector and the constant bytes
    lemma_selector_in_bounds(w, m2, e, given + more);
    let m3 = run(w, m2, base + 1, e.write_selector());
    lemma_run_both(w, m1, base, allocate, e.write_selector());
    lemma_write_selector(w, m1, e);
    assert(constant_area(m3, e) =~= given);
    lemma_constant_in_bounds(w, m3, e, given + more);
    lemma_write_constant(w, m3, e);
    let m4 = run(w, m3, e.selector_written(), e.write_constant());
    assert((given + more) + empty =~= given + more);
    lemma_both_in_bounds(
        w,
        m2,
        base + 1,
        e.write_selector(),
        e.write_constant(),
        given + more,
        empty,
    );
    lemma_run_both(w, m2, base + 1, e.write_selector::<'a>(), e.write_constant());
    // the arguments
    lemma_clear_in_bounds(w, m4, e, given + more);
    lemma_both_in_bounds(w, m2, base + 1, rest, e.clear_arguments(), given + more, empty);
    assert(is_reserved(w, m, e.base, head, own));
    lemma_both_in_bounds(
        w,
        m,
        e.base,
        head,
        rest + e.clear_arguments::<'a>(),
        given,
        more,
    );
    assert(head + (rest + e.clear_arguments::<'a>()) =~= e.head::<'a>());
    lemma_run_start(w, m, e.base, head, rest + e.clear_arguments::<'a>(), at);
    assert(e.head::<'a>()[at] == head[at]);
}

/// A creation stays within its input, the 20 bytes of the new address and its own balance,
/// which has the 16 bytes that the host reads.
pub proof fn creation_in_bounds<'a>(
    w: World<'a>,
    m: Machine,
    base: int,
    function: FunctionRef,
    global: int,
    address: PointerOperand,
    input: PointerOperand,
    length: IntOperand,
)
    requires
        m.status is Running,
        numbered(base, 10),
        0 <= global <= usize::MAX,
        global < w.globals.len(),
        w.globals[global] == code::balance(),
        pointer_before(address, base),
        pointer_before(input, base),
        int_before(length, base),
    ensures
        in_bounds(
            w,
            m,
            base,
            code::finish_creation(base, function, global, address, input, length),
            seq![bytes_at(m, input, length), Area { start: m.address_of(address), size: 20 }],
        ),
{
    broadcast use lemma_i32;

    let s = code::finish_creation(base, function, global, address, input, length);
    let to = Area { start: m.address_of(address), size: 20 };
    let given = seq![bytes_at(m, input, length), to];
    let own = Area { start: (w.address)(base), size: 16 };
    lemma_none(w, m, base, s);
    lemma_global(w, m, base, s, 0);
    let m1 = run_to(w, m, base, s, 1);
    assert(reserves(w, m, base, s, 0, own));
    assert(given[0] == bytes_at(m, input, length) && given[1] == to);
    assert(accessed(m1, s[1]) =~= seq![own, bytes_at(m, input, length), to]);
    assert(lies_in(own, own));
    assert(step_in_bounds(w, m, base, s, 1, given));
    let m7 = run_to(w, m, base, s, 7);
    assert(accessed(m7, s[7]) =~= seq![bytes_at(m7, null_bytes(), i32_const(0))]);
    assert(step_in_bounds(w, m, base, s, 7, given));
}

} // verus!
