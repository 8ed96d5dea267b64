//! The host: what the operations hand to it and take from it.
use crate::code;
use crate::ir::{
    FunctionRef, IntOperand, PointerOperand, i32_const, int_at, null_bytes, pointer_at,
};
use crate::machine::{
    Machine, Message, Status, World, apart, call, execute, int_before, lemma_call, lemma_cast,
    lemma_ended, lemma_global, lemma_i32, lemma_land, lemma_next, lemma_none, lemma_pass,
    lemma_run_both, numbered, pointer_before, run, run_to, same_memory, same_registers, zeros,
};
use vstd::arithmetic::div_mod::lemma_small_mod;
use vstd::arithmetic::power2::{lemma2_to64, pow2};
use vstd::prelude::*;

verus! {

/// `return_abi` ends the execution with the `length` bytes at `data`.
pub proof fn return_abi_finishes<'a>(
    w: World<'a>,
    m: Machine,
    base: int,
    data: PointerOperand,
    length: IntOperand,
)
    requires
        m.status is Running,
    ensures
        run(w, m, base, code::return_abi(data, length)) == (Machine {
            status: Status::Finished(m.bytes(m.address_of(data), m.int_of(length))),
            ..m
        }),
{
    let s = code::return_abi(data, length);
    lemma_none(w, m, base, s);
    lemma_call(w, m, base, s, 0);
    reveal(call);
    lemma_ended(w, m, base, s, 1, 2);
}

/// `return_empty_abi` ends the execution with no bytes.
pub proof fn return_empty_abi_finishes<'a>(w: World<'a>, m: Machine, base: int)
    requires
        m.status is Running,
    ensures
        run(w, m, base, code::return_empty_abi()) == (Machine {
            status: Status::Finished(seq![]),
            ..m
        }),
{
    broadcast use lemma_i32;

    return_abi_finishes(w, m, base, null_bytes(), i32_const(0));
    assert(m.bytes(0, 0) =~= seq![]);
}

/// `assert_failure` undoes the execution with the `length` bytes at `data`.
pub proof fn assert_failure_reverts<'a>(
    w: World<'a>,
    m: Machine,
    base: int,
    data: PointerOperand,
    length: IntOperand,
)
    requires
        m.status is Running,
    ensures
        run(w, m, base, code::assert_failure(data, length)) == (Machine {
            status: Status::Reverted(m.bytes(m.address_of(data), m.int_of(length))),
            ..m
        }),
{
    let s = code::assert_failure(data, length);
    lemma_none(w, m, base, s);
    lemma_call(w, m, base, s, 0);
    reveal(call);
    lemma_ended(w, m, base, s, 1, 2);
}

/// `print` prints the `length` bytes at `string` and does nothing else.
pub proof fn print_prints<'a>(
    w: World<'a>,
    m: Machine,
    base: int,
    string: PointerOperand,
    length: IntOperand,
)
    requires
        m.status is Running,
    ensures
        run(w, m, base, code::print(string, length)) == (Machine {
            printed: m.printed.push(m.bytes(m.address_of(string), m.int_of(length))),
            ..m
        }),
{
    let s = code::print(string, length);
    lemma_none(w, m, base, s);
    lemma_call(w, m, base, s, 0);
    reveal(call);
}

/// `keccak256_hash` writes the hash of the `length` bytes at `src` to `dest`, and nothing
/// else.
pub proof fn keccak256_hash_writes_digest<'a>(
    w: World<'a>,
    m: Machine,
    base: int,
    src: PointerOperand,
    length: IntOperand,
    dest: PointerOperand,
)
    requires
        m.status is Running,
        numbered(base, 3),
        pointer_before(src, base),
        pointer_before(dest, base),
        int_before(length, base),
        (w.digest)(m.bytes(m.address_of(src), m.int_of(length))).len() == 32,
    ensures
        ({
            let after = run(w, m, base, code::keccak256_hash(base, src, length, dest));
            &&& after.status is Running
            &&& after.bytes(m.address_of(dest), 32) == (w.digest)(
                m.bytes(m.address_of(src), m.int_of(length)),
            )
            &&& after.storage == m.storage
            &&& after.messages == m.messages
            &&& after.printed == m.printed
            &&& after.return_data == m.return_data
            &&& same_memory(m, after, m.address_of(dest), 32)
            &&& same_registers(m, after, base)
        }),
{
    broadcast use lemma_i32;

    let s = code::keccak256_hash(base, src, length, dest);
    let from = m.bytes(m.address_of(src), m.int_of(length));
    let m1 = m.yielding(base, m.address_of(src));
    let m2 = m1.yielding(base + 1, m.address_of(dest));
    lemma_none(w, m, base, s);
    lemma_cast(w, m, base, s, 0);
    lemma_cast(w, m, base, s, 1);
    lemma_call(w, m, base, s, 2);
    assert(m2.bytes(m.address_of(src), m.int_of(length)) =~= from);
    reveal(call);
    let after = run(w, m, base, s);
    assert(after.bytes(m.address_of(dest), 32) =~= (w.digest)(from));
}

/// `external_call` sends one message: the `length` bytes at `payload`, to the contract at
/// `address`, with no gas and a balance of zero. It yields the host's status.
pub proof fn external_call_sends<'a>(
    w: World<'a>,
    m: Machine,
    base: int,
    payload: PointerOperand,
    length: IntOperand,
    address: PointerOperand,
    global: int,
)
    requires
        m.status is Running,
        numbered(base, 2),
        0 <= global <= usize::MAX,
        global < w.globals.len(),
        w.globals[global] == code::balance(),
        pointer_before(payload, base),
        int_before(length, base),
        pointer_before(address, base),
        apart((w.address)(base), 16, m.address_of(payload), m.int_of(length)),
        apart((w.address)(base), 16, m.address_of(address), 20),
    ensures
        ({
            let after = run(
                w,
                m,
                base,
                code::external_call(base, payload, length, address, global),
            );
            &&& after.status is Running
            &&& after.messages == m.messages.push(
                Message {
                    gas: 0,
                    address: m.bytes(m.address_of(address), 20),
                    balance: zeros(16),
                    input: m.bytes(m.address_of(payload), m.int_of(length)),
                },
            )
            &&& after.int_of(int_at(base + 1, 32)) == (w.reply)(base + 1).status
            &&& after.return_data == (w.reply)(base + 1).data
            &&& after.storage == (w.reply)(base + 1).storage
            &&& after.printed == m.printed
            &&& same_memory(m, after, (w.address)(base), 16)
            &&& same_registers(m, after, base)
        }),
{
    let s = code::external_call(base, payload, length, address, global);
    let m1 = m.writing((w.address)(base), code::balance()).yielding(base, (w.address)(base));
    let gas = IntOperand::Const { width: 64, value: 0 };
    lemma_none(w, m, base, s);
    lemma_global(w, m, base, s, 0);
    lemma_call(w, m, base, s, 1);
    assert(m1.int_of(gas) == 0) by {
        lemma2_to64();
        lemma_small_mod(0, pow2(64));
    }
    assert(m1.bytes(m.address_of(payload), m.int_of(length)) =~= m.bytes(
        m.address_of(payload),
        m.int_of(length),
    ));
    assert(m1.bytes(m.address_of(address), 20) =~= m.bytes(m.address_of(address), 20));
    assert(m1.bytes((w.address)(base), 16) =~= zeros(16));
    reveal(call);
}

/// `return_data` copies all that the last call returned, and yields where it is and how
/// long it is.
pub proof fn return_data_copies<'a>(w: World<'a>, m: Machine, base: int)
    requires
        m.status is Running,
        numbered(base, 3),
    ensures
        ({
            let after = run(w, m, base, code::return_data(base));
            let data = after.address_of(pointer_at(base + 1, 8));
            let length = after.int_of(int_at(base, 32));
            &&& after.status is Running
            &&& length == m.return_data.len()
            &&& after.bytes(data, length) == m.return_data
            &&& same_memory(m, after, data, length)
            &&& same_registers(m, after, base)
            &&& after.storage == m.storage
            &&& after.messages == m.messages
            &&& after.printed == m.printed
            &&& after.return_data == m.return_data
        }),
{
    broadcast use lemma_i32;

    let s = code::return_data(base);
    let n = m.return_data.len() as int;
    let data = (w.address)(base + 1);
    lemma_none(w, m, base, s);
    lemma_call(w, m, base, s, 0);
    assert(run_to(w, m, base, s, 1) == m.yielding(base, n)) by {
        reveal(call);
    }
    lemma_call(w, m, base, s, 1);
    let m2 = m.yielding(base, n).yielding(base + 1, data);
    assert(run_to(w, m, base, s, 2) == m2) by {
        reveal(call);
    }
    lemma_call(w, m, base, s, 2);
    assert(m.return_data.subrange(0, n) =~= m.return_data);
    assert(run_to(w, m, base, s, 3) == m2.writing(data, m.return_data)) by {
        reveal(call);
    }
    assert(run(w, m, base, s).bytes(data, n) =~= m.return_data);
}

/// After `external_call`, `return_data` gives exactly what the called contract returned.
pub proof fn return_data_after_call<'a>(
    w: World<'a>,
    m: Machine,
    base: int,
    payload: PointerOperand,
    length: IntOperand,
    address: PointerOperand,
    global: int,
)
    requires
        m.status is Running,
        numbered(base, 5),
        0 <= global <= usize::MAX,
        global < w.globals.len(),
        w.globals[global] == code::balance(),
        pointer_before(payload, base),
        int_before(length, base),
        pointer_before(address, base),
        apart((w.address)(base), 16, m.address_of(payload), m.int_of(length)),
        apart((w.address)(base), 16, m.address_of(address), 20),
    ensures
        ({
            let sent = code::external_call(base, payload, length, address, global);
            let after = run(w, m, base, sent + code::return_data(base + 2));
            let data = after.address_of(pointer_at(base + 3, 8));
            let length = after.int_of(int_at(base + 2, 32));
            &&& after.status is Running
            &&& after.bytes(data, length) == (w.reply)(base + 1).data
        }),
{
    let sent = code::external_call(base, payload, length, address, global);
    lemma_run_both(w, m, base, sent, code::return_data(base + 2));
    external_call_sends(w, m, base, payload, length, address, global);
    return_data_copies(w, run(w, m, base, sent), base + 2);
}

/// The runtime's prelude copies the whole call data, and yields where it is and how long
/// it is.
#[verifier::rlimit(40)]
pub proof fn runtime_prelude_copies_call_data<'a>(
    w: World<'a>,
    m: Machine,
    base: int,
    function: FunctionRef,
)
    requires
        m.status == Status::Jumped(base),
        numbered(base, 7),
    ensures
        ({
            let after = run(w, m, base, code::runtime_prelude(base, function));
            let data = after.address_of(pointer_at(base + 6, 32));
            let length = after.int_of(int_at(base + 3, 32));
            &&& after.status is Running
            &&& length == w.call_data.len()
            &&& after.bytes(data, length) == w.call_data
            &&& same_memory(m, after, data, length)
            &&& after.storage == m.storage
            &&& after.messages == m.messages
            &&& after.printed == m.printed
            &&& after.return_data == m.return_data
        }),
{
    broadcast use lemma_i32;

    let s = code::runtime_prelude(base, function);
    let n = w.call_data.len() as int;
    let data = (w.address)(base + 4);
    let running = Machine { status: Status::Running, ..m };
    lemma_none(w, m, base, s);
    lemma_pass(w, m, base, s, 0);
    lemma_land(w, m, base, s, 1);
    lemma_call(w, m, base, s, 2);
    assert(run_to(w, m, base, s, 3) == running) by {
        reveal(call);
    }
    lemma_call(w, m, base, s, 3);
    assert(run_to(w, m, base, s, 4) == running.yielding(base + 3, n)) by {
        reveal(call);
    }
    lemma_call(w, m, base, s, 4);
    let m5 = running.yielding(base + 3, n).yielding(base + 4, data);
    assert(run_to(w, m, base, s, 5) == m5) by {
        reveal(call);
    }
    lemma_call(w, m, base, s, 5);
    assert(w.call_data.subrange(0, n) =~= w.call_data);
    assert(run_to(w, m, base, s, 6) == m5.writing(data, w.call_data)) by {
        reveal(call);
    }
    lemma_cast(w, m, base, s, 6);
    assert(run(w, m, base, s).bytes(data, n) =~= w.call_data);
}

/// The deployer's prelude copies what follows the first `CODE_SIZE` bytes of the code, and
/// yields where it is and how long it is. Where the code is shorter than that, it traps.
#[verifier::rlimit(40)]
pub proof fn deployer_prelude_copies_arguments<'a>(
    w: World<'a>,
    m: Machine,
    base: int,
    function: FunctionRef,
)
    requires
        m.status == Status::Jumped(base),
        numbered(base, 8),
        w.code.len() < 0x1_0000_0000,
    ensures
        ({
            let after = run(w, m, base, code::deployer_prelude(base, function));
            let data = after.address_of(pointer_at(base + 7, 32));
            let length = after.int_of(int_at(base + 4, 32));
            if w.code.len() < code::CODE_SIZE {
                after.status is Trapped
            } else {
                &&& after.status is Running
                &&& length == w.code.len() - code::CODE_SIZE
                &&& after.bytes(data, length) == w.code.skip(code::CODE_SIZE as int)
                &&& same_memory(m, after, data, length)
                &&& after.storage == m.storage
                &&& after.messages == m.messages
                &&& after.printed == m.printed
                &&& after.return_data == m.return_data
            }
        }),
{
    broadcast use lemma_i32;

    let s = code::deployer_prelude(base, function);
    let size = w.code.len() as int;
    let start = code::CODE_SIZE as int;
    let n = (size - start) % 0x1_0000_0000;
    let data = (w.address)(base + 5);
    let running = Machine { status: Status::Running, ..m };
    lemma_none(w, m, base, s);
    lemma_pass(w, m, base, s, 0);
    lemma_land(w, m, base, s, 1);
    lemma_call(w, m, base, s, 2);
    assert(run_to(w, m, base, s, 3) == running) by {
        reveal(call);
    }
    lemma_call(w, m, base, s, 3);
    let m4 = running.yielding(base + 3, size);
    assert(run_to(w, m, base, s, 4) == m4) by {
        reveal(call);
    }
    lemma_next(w, m, base, s, 4);
    let m5 = m4.yielding(base + 4, n);
    assert(run_to(w, m, base, s, 5) == m5) by {
        lemma2_to64();
        reveal(execute);
    }
    lemma_call(w, m, base, s, 5);
    let m6 = m5.yielding(base + 5, data);
    assert(run_to(w, m, base, s, 6) == m6) by {
        reveal(call);
    }
    lemma_call(w, m, base, s, 6);
    if size < start {
        assert(run_to(w, m, base, s, 7) == (Machine { status: Status::Trapped, ..m6 })) by {
            reveal(call);
        }
        lemma_ended(w, m, base, s, 7, 8);
    } else {
        assert(w.code.subrange(start, start + n) =~= w.code.skip(start));
        assert(run_to(w, m, base, s, 7) == m6.writing(data, w.code.skip(start))) by {
            reveal(call);
        }
        lemma_cast(w, m, base, s, 7);
        assert(run(w, m, base, s).bytes(data, n) =~= w.code.skip(start));
    }
}

} // verus!
