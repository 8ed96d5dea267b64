//! Storage: what is written is read back.
use crate::code;
use crate::ir::{PointerOperand, Step, int_at, pointer_at};
use crate::machine::{
    Machine, World, apart, bytes_of, call, le_bytes, lemma_alloca, lemma_bytes_of_number, lemma_call,
    lemma_cast, lemma_i32, lemma_load, lemma_low_bytes,
    lemma_none, lemma_number_bound, lemma_number_of_bytes, lemma_run_both,
    lemma_store, lemma_zero_extended, number, numbered, pointer_before, run, run_to, same_memory,
    same_registers, store, zeros,
};
use vstd::arithmetic::div_mod::{lemma_mod_bound, lemma_small_mod};
use vstd::arithmetic::power2::{lemma_pow2_pos, lemma_pow2_strictly_increases, lemma2_to64, pow2};
use vstd::prelude::*;

verus! {

/// `clear_storage` puts 32 zero bytes into the slot that the 32 bytes at `slot` name, and
/// writes no memory but its own stack space.
pub proof fn clear_storage_stores_zero<'a>(w: World<'a>, m: Machine, base: int, slot: PointerOperand)
    requires
        m.status is Running,
        numbered(base, 5),
        pointer_before(slot, base),
        apart((w.address)(base), 32, m.address_of(slot), 32),
    ensures
        ({
            let after = run(w, m, base, code::clear_storage(base, slot));
            &&& after.status is Running
            &&& after.storage == store(m.storage, m.bytes(m.address_of(slot), 32), zeros(32))
            &&& same_memory(m, after, (w.address)(base), 32)
            &&& same_registers(m, after, base)
            &&& after.messages == m.messages
            &&& after.printed == m.printed
            &&& after.return_data == m.return_data
        }),
{
    let s = code::clear_storage(base, slot);
    lemma_none(w, m, base, s);
    broadcast use lemma_i32;

    let value = (w.address)(base);
    let m1 = m.yielding(base, value);
    let m2 = m1.yielding(base + 1, value);
    let m3 = m2.writing(value, zeros(32));
    let m4 = m3.yielding(base + 3, m.address_of(slot));
    lemma_alloca(w, m, base, s, 0);
    lemma_cast(w, m, base, s, 1);
    lemma_call(w, m, base, s, 2);
    assert(run_to(w, m, base, s, 3) == m3) by {
        reveal(call);
    }
    lemma_cast(w, m, base, s, 3);
    lemma_call(w, m, base, s, 4);
    reveal(call);
    assert(m4.bytes(m.address_of(slot), 32) =~= m.bytes(m.address_of(slot), 32));
    assert(m4.bytes(value, 32) =~= zeros(32));
}

/// The integer of `width` bits that the slot named by the 32 bytes at the address holds.
pub open spec fn stored_integer(m: Machine, address: int, width: u32) -> int {
    number((m.storage)(m.bytes(address, 32)).take(bytes_of(width) as int)) % pow2(
        width as nat,
    ) as int
}

/// An integer of up to 256 bits fits into its bytes, and these into a slot.
proof fn lemma_integer_fits(value: int, width: u32)
    requires
        1 <= width <= 256,
        0 <= value < pow2(width as nat),
    ensures
        bytes_of(width) <= 32,
        0 <= value < pow2((8 * bytes_of(width)) as nat),
{
    if width < 8 * bytes_of(width) {
        lemma_pow2_strictly_increases(width as nat, (8 * bytes_of(width)) as nat);
    }
}

/// `set_storage` puts the integer at `dest`, extended by zeros to 32 bytes, into the slot
/// that the 32 bytes at `slot` name, and writes no memory but its own stack space. For an
/// integer of 256 bits it needs none.
#[verifier::rlimit(40)]
pub proof fn set_storage_stores_integer<'a>(
    w: World<'a>,
    m: Machine,
    base: int,
    slot: PointerOperand,
    dest: PointerOperand,
    width: u32,
)
    requires
        m.status is Running,
        numbered(base, 8),
        pointer_before(slot, base),
        pointer_before(dest, base),
        1 <= width <= 256,
        width != 256 ==> {
            &&& apart((w.address)(base), 32, m.address_of(slot), 32)
            &&& apart((w.address)(base), 32, m.address_of(dest), bytes_of(width) as int)
        },
    ensures
        ({
            let after = run(w, m, base, code::set_storage(base, slot, dest, width));
            &&& after.status is Running
            &&& after.storage == store(
                m.storage,
                m.bytes(m.address_of(slot), 32),
                le_bytes(m.integer_at(m.address_of(dest), width), 32),
            )
            &&& same_memory(m, after, (w.address)(base), 32)
            &&& width == 256 ==> after.memory == m.memory
            &&& same_registers(m, after, base)
            &&& after.messages == m.messages
            &&& after.printed == m.printed
            &&& after.return_data == m.return_data
        }),
{
    broadcast use lemma_i32;

    let s = code::set_storage(base, slot, dest, width);
    let n = bytes_of(width);
    let from = m.bytes(m.address_of(dest), n as int);
    let v = m.integer_at(m.address_of(dest), width);
    lemma_none(w, m, base, s);
    lemma_number_bound(from);
    if width == 256 {
        let m1 = m.yielding(base, m.address_of(slot));
        let m2 = m1.yielding(base + 1, m.address_of(dest));
        lemma_cast(w, m, base, s, 0);
        lemma_cast(w, m, base, s, 1);
        lemma_call(w, m, base, s, 2);
        reveal(call);
        lemma_bytes_of_number(from);
        lemma_small_mod(number(from) as nat, pow2(256));
        assert(m2.bytes(m.address_of(slot), 32) =~= m.bytes(m.address_of(slot), 32));
        assert(m2.bytes(m.address_of(dest), 32) =~= from);
    } else {
        let value = (w.address)(base);
        let m1 = m.yielding(base, value);
        let m2 = m1.yielding(base + 1, value);
        let m3 = m2.writing(value, zeros(32));
        let m4 = m3.yielding(base + 3, v);
        let m5 = m4.yielding(base + 4, value);
        let m6 = m5.writing(value, le_bytes(v, n));
        let m7 = m6.yielding(base + 6, m.address_of(slot));
        lemma_alloca(w, m, base, s, 0);
        lemma_cast(w, m, base, s, 1);
        lemma_call(w, m, base, s, 2);
        assert(run_to(w, m, base, s, 3) == m3) by {
            reveal(call);
        }
        assert(m3.bytes(m.address_of(dest), n as int) =~= from);
        lemma_load(w, m, base, s, 3);
        lemma_cast(w, m, base, s, 4);
        lemma_store(w, m, base, s, 5);
        assert(run_to(w, m, base, s, 6) == m6);
        lemma_cast(w, m, base, s, 6);
        lemma_call(w, m, base, s, 7);
        reveal(call);
        lemma_pow2_pos(width as nat);
        assert(0 <= v < pow2(width as nat)) by {
            lemma_mod_bound(number(from), pow2(width as nat) as int);
        }
        lemma_integer_fits(v, width);
        lemma_number_of_bytes(v, n);
        lemma_zero_extended(v, n, (32 - n) as nat);
        assert(m7.bytes(m.address_of(slot), 32) =~= m.bytes(m.address_of(slot), 32));
        assert(m7.bytes(value, 32) =~= le_bytes(v, 32));
    }
}

/// `get_storage_int` yields the integer that the slot named by the 32 bytes at `slot`
/// holds, and writes no memory but its own stack space.
pub proof fn get_storage_int_loads_integer<'a>(
    w: World<'a>,
    m: Machine,
    base: int,
    slot: PointerOperand,
    width: u32,
)
    requires
        m.status is Running,
        numbered(base, 6),
        pointer_before(slot, base),
        1 <= width <= 256,
        (m.storage)(m.bytes(m.address_of(slot), 32)).len() == 32,
    ensures
        ({
            let after = run(w, m, base, code::get_storage_int(base, slot, width));
            &&& after.status is Running
            &&& after.int_of(int_at(base + 5, width)) == stored_integer(
                m,
                m.address_of(slot),
                width,
            )
            &&& after.storage == m.storage
            &&& same_memory(m, after, (w.address)(base), 32)
            &&& same_registers(m, after, base)
            &&& after.messages == m.messages
            &&& after.printed == m.printed
            &&& after.return_data == m.return_data
        }),
{
    let s = code::get_storage_int(base, slot, width);
    let buffer = (w.address)(base);
    let n = bytes_of(width);
    let m1 = m.yielding(base, buffer);
    let m2 = m1.yielding(base + 1, m.address_of(slot));
    let m3 = m2.yielding(base + 2, buffer);
    let held = (m.storage)(m.bytes(m.address_of(slot), 32));
    let m4 = m3.writing(buffer, held);
    lemma_none(w, m, base, s);
    lemma_alloca(w, m, base, s, 0);
    lemma_cast(w, m, base, s, 1);
    lemma_cast(w, m, base, s, 2);
    lemma_call(w, m, base, s, 3);
    assert(m3.bytes(m.address_of(slot), 32) =~= m.bytes(m.address_of(slot), 32));
    assert(run_to(w, m, base, s, 4) == m4) by {
        reveal(call);
    }
    lemma_cast(w, m, base, s, 4);
    lemma_load(w, m, base, s, 5);
    assert(m4.bytes(buffer, n as int) =~= held.take(n as int));
}

/// What `set_storage` writes to a slot, `get_storage_int` reads from that slot; from any
/// other slot it reads what that slot held before.
#[verifier::rlimit(40)]
pub proof fn get_after_set<'a>(
    w: World<'a>,
    m: Machine,
    base: int,
    written: PointerOperand,
    dest: PointerOperand,
    width: u32,
    slot: PointerOperand,
)
    requires
        m.status is Running,
        numbered(base, 14),
        pointer_before(written, base),
        pointer_before(dest, base),
        pointer_before(slot, base),
        1 <= width <= 256,
        width != 256 ==> {
            &&& apart((w.address)(base), 32, m.address_of(written), 32)
            &&& apart((w.address)(base), 32, m.address_of(dest), bytes_of(width) as int)
            &&& apart((w.address)(base), 32, m.address_of(slot), 32)
        },
        (m.storage)(m.bytes(m.address_of(slot), 32)).len() == 32,
    ensures
        ({
            let set = code::set_storage(base, written, dest, width);
            let next = base + set.len();
            let get = code::get_storage_int(next, slot, width);
            let after = run(w, m, base, set + get);
            &&& after.status is Running
            &&& after.int_of(int_at(next + 5, width)) == if m.bytes(m.address_of(slot), 32)
                == m.bytes(m.address_of(written), 32) {
                m.integer_at(m.address_of(dest), width)
            } else {
                stored_integer(m, m.address_of(slot), width)
            }
        }),
{
    let set = code::set_storage(base, written, dest, width);
    let next = base + set.len();
    let get = code::get_storage_int(next, slot, width);
    let v = m.integer_at(m.address_of(dest), width);
    let middle = run(w, m, base, set);
    lemma_run_both(w, m, base, set, get);
    set_storage_stores_integer(w, m, base, written, dest, width);
    assert(middle.address_of(slot) == m.address_of(slot));
    assert(middle.bytes(m.address_of(slot), 32) =~= m.bytes(m.address_of(slot), 32));
    lemma_pow2_pos(width as nat);
    lemma_mod_bound(
        number(m.bytes(m.address_of(dest), bytes_of(width) as int)),
        pow2(width as nat) as int,
    );
    lemma_integer_fits(v, width);
    lemma_low_bytes(v, bytes_of(width), (32 - bytes_of(width)) as nat);
    lemma_number_of_bytes(v, bytes_of(width));
    lemma_small_mod(v as nat, pow2(width as nat));
    get_storage_int_loads_integer(w, middle, next, slot, width);
}

/// From a slot that `clear_storage` cleared, `get_storage_int` reads zero; from any other
/// slot it reads what that slot held before.
pub proof fn get_after_clear<'a>(
    w: World<'a>,
    m: Machine,
    base: int,
    cleared: PointerOperand,
    slot: PointerOperand,
    width: u32,
)
    requires
        m.status is Running,
        numbered(base, 11),
        pointer_before(cleared, base),
        pointer_before(slot, base),
        1 <= width <= 256,
        apart((w.address)(base), 32, m.address_of(cleared), 32),
        apart((w.address)(base), 32, m.address_of(slot), 32),
        (m.storage)(m.bytes(m.address_of(slot), 32)).len() == 32,
    ensures
        ({
            let clear = code::clear_storage(base, cleared);
            let get = code::get_storage_int(base + 5, slot, width);
            let after = run(w, m, base, clear + get);
            &&& after.status is Running
            &&& after.int_of(int_at(base + 10, width)) == if m.bytes(m.address_of(slot), 32)
                == m.bytes(m.address_of(cleared), 32) {
                0
            } else {
                stored_integer(m, m.address_of(slot), width)
            }
        }),
{
    let clear = code::clear_storage(base, cleared);
    let get = code::get_storage_int(base + 5, slot, width);
    let middle = run(w, m, base, clear);
    let n = bytes_of(width);
    lemma_run_both(w, m, base, clear, get);
    clear_storage_stores_zero(w, m, base, cleared);
    assert(middle.address_of(slot) == m.address_of(slot));
    assert(middle.bytes(m.address_of(slot), 32) =~= m.bytes(m.address_of(slot), 32));
    lemma_pow2_pos(width as nat);
    lemma_pow2_pos((8 * n) as nat);
    lemma_integer_fits(0, width);
    assert(zeros(32).take(n as int) =~= le_bytes(0, 0) + zeros(n));
    lemma2_to64();
    lemma_zero_extended(0, 0, n);
    lemma_number_of_bytes(0, n);
    lemma_small_mod(0, pow2(width as nat));
    get_storage_int_loads_integer(w, middle, base + 5, slot, width);
}

/// Reading integers of two widths from a slot differs in nothing but the width of the last
/// cast and of the load: the stack space and what the host is asked for are the same, and the
/// load is from the start of that stack space.
pub proof fn get_storage_int_differs_by_width<'a>(
    base: int,
    slot: PointerOperand,
    one: u32,
    other: u32,
    k: int,
)
    requires
        0 <= k < 6,
    ensures
        ({
            let first = code::get_storage_int::<'a>(base, slot, one);
            let second = code::get_storage_int::<'a>(base, slot, other);
            &&& first.len() == 6
            &&& k < 4 ==> first[k] == second[k]
            &&& first[4] matches Step::PointerCast { pointer, width, .. } && {
                &&& pointer == pointer_at(base, 8)
                &&& width == one
            }
            &&& first[5] matches Step::Load { pointer, width, .. } && {
                &&& pointer == pointer_at(base + 4, one)
                &&& width == one
            }
        }),
{
}

/// Writing integers of two widths, neither of 256 bits, differs in nothing but the width of
/// the load and of the store. The integer is loaded from where it is, and stored at the start
/// of the stack space.
pub proof fn set_storage_differs_by_width<'a>(
    base: int,
    slot: PointerOperand,
    dest: PointerOperand,
    one: u32,
    other: u32,
    k: int,
)
    requires
        one != 256,
        other != 256,
        0 <= k < 8,
    ensures
        ({
            let first = code::set_storage::<'a>(base, slot, dest, one);
            let second = code::set_storage::<'a>(base, slot, dest, other);
            &&& first.len() == 8
            &&& k != 3 && k != 5 ==> first[k] == second[k]
            &&& first[3] matches Step::Load { pointer, width, .. } && {
                &&& pointer == dest
                &&& width == one
            }
            &&& first[4] matches Step::PointerCastLike { pointer, like, .. } && {
                &&& pointer == pointer_at(base, 256)
                &&& like == dest
            }
            &&& first[5] == (Step::Store {
                pointer: pointer_at(base + 4, one),
                value: int_at(base + 3, one),
            })
        }),
{
}

} // verus!
