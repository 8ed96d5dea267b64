//! ABI encoding: how long the encoding is and where its parts are.
use crate::code::{self, Encoding};
use crate::ir::{Pointee, PointerOperand, Step, int_at};
use crate::machine::{
    Machine, World, address_space, apart, bytes_of, call, execute, le_bytes, lemma_call, lemma_cast,
    lemma_i32, lemma_next, lemma_none, lemma_run_both, lemma_store, numbered, pointer_before, run,
    run_to, same_memory, same_registers, value_before, zeros,
};
use crate::resolver::{Parameter, Type};
use vstd::arithmetic::power2::lemma2_to64;
use vstd::prelude::*;

verus! {

/// The machine still runs, and nothing changed but what the steps from number `base` on
/// yielded.
pub open spec fn only_yielded(before: Machine, after: Machine, base: int) -> bool {
    &&& after.status is Running
    &&& after.memory == before.memory
    &&& after.storage == before.storage
    &&& after.messages == before.messages
    &&& after.printed == before.printed
    &&& after.return_data == before.return_data
    &&& same_registers(before, after, base)
}

/// The number of bytes that argument `i` takes in the dynamic part.
pub open spec fn dynamic_size(w: World, e: Encoding, i: int) -> int {
    (w.dynamic_length)(e.base + 2 * i)
}

/// The number of bytes of the first `n` arguments: the fixed parts of all and the dynamic
/// parts of these.
pub open spec fn arguments_size(w: World, e: Encoding, n: int) -> int
    decreases n,
{
    if n <= 0 {
        code::fixed_length(e.spec) as int
    } else {
        arguments_size(w, e, n - 1) + dynamic_size(w, e, n - 1)
    }
}

/// The number of bytes of the arguments.
pub open spec fn all_arguments_size(w: World, e: Encoding) -> int {
    arguments_size(w, e, e.spec.len() as int)
}

/// The number of bytes of the selector.
pub open spec fn selector_size(e: Encoding) -> int {
    if e.selector is Some {
        4
    } else {
        0
    }
}

/// The number of constant bytes.
pub open spec fn constant_size(e: Encoding) -> int {
    match e.constant {
        Some((_, len)) => len as int,
        None => 0,
    }
}

/// The number of bytes of the encoding.
pub open spec fn encoding_size(w: World, e: Encoding) -> int {
    selector_size(e) + constant_size(e) + all_arguments_size(w, e)
}

/// The number of bytes that are zeroed, from the start of the arguments on. They are the
/// arguments where the size of these is a multiple of eight.
pub open spec fn zeroed_size(w: World, e: Encoding) -> int {
    8 * ((selector_size(e) + all_arguments_size(w, e)) / 8)
}

/// The number of bytes that are written, from the start of the encoding on: the encoding,
/// and what is zeroed past its end.
pub open spec fn reach(w: World, e: Encoding) -> int {
    let zeroed = selector_size(e) + constant_size(e) + zeroed_size(w, e);
    if zeroed < encoding_size(w, e) {
        encoding_size(w, e)
    } else {
        zeroed
    }
}

/// The dynamic parts have sizes, the encoding fits into the memory, and its steps have
/// numbers.
pub open spec fn sized(w: World, e: Encoding) -> bool {
    &&& forall|k: int| 0 <= #[trigger] (w.dynamic_length)(k)
    &&& encoding_size(w, e) < 0x1_0000_0000
    &&& numbered(e.base, 3 * e.spec.len() as int + 12)
    &&& e.constant matches Some((code, _)) ==> pointer_before(code, e.base)
}

/// The first arguments take no more bytes than all of them.
pub proof fn lemma_arguments_size(w: World, e: Encoding, n: int)
    requires
        sized(w, e),
        0 <= n <= e.spec.len(),
    ensures
        0 <= arguments_size(w, e, n) <= all_arguments_size(w, e),
    decreases e.spec.len() - n,
{
    lemma_arguments_size_positive(w, e, n);
    if n < e.spec.len() {
        lemma_arguments_size(w, e, n + 1);
        assert(0 <= (w.dynamic_length)(e.base + 2 * n));
    }
}

proof fn lemma_arguments_size_positive(w: World, e: Encoding, n: int)
    requires
        sized(w, e),
    ensures
        0 <= arguments_size(w, e, n),
    decreases n,
{
    if n > 0 {
        lemma_arguments_size_positive(w, e, n - 1);
        assert(0 <= (w.dynamic_length)(e.base + 2 * (n - 1)));
    }
}

/// An addition of two integers of 32 bits whose sum fits.
proof fn lemma_sum<'a>(w: World<'a>, m: Machine, base: int, steps: Seq<Step<'a>>, n: int)
    requires
        0 <= n,
        run_to(w, m, base, steps, n).status is Running,
        steps[n] matches Step::IntAdd { lhs, rhs } && {
            let before = run_to(w, m, base, steps, n);
            &&& lhs.spec_width() == 32
            &&& 0 <= before.int_of(lhs) + before.int_of(rhs) < 0x1_0000_0000
        },
    ensures
        steps[n] matches Step::IntAdd { lhs, rhs } && {
            let before = run_to(w, m, base, steps, n);
            run_to(w, m, base, steps, n + 1) == before.yielding(
                base + n,
                before.int_of(lhs) + before.int_of(rhs),
            )
        },
{
    lemma_next(w, m, base, steps, n);
    lemma2_to64();
    reveal(execute);
}

/// The address so many bytes past a pointer, where there is one.
proof fn lemma_byte_offset<'a>(w: World<'a>, m: Machine, base: int, steps: Seq<Step<'a>>, n: int)
    requires
        0 <= n,
        run_to(w, m, base, steps, n).status is Running,
        steps[n] matches Step::Gep { pointer, index } && {
            let before = run_to(w, m, base, steps, n);
            &&& pointer.spec_pointee() == Pointee::Int(8)
            &&& 0 <= before.address_of(pointer) + before.int_of(index) < 0x1_0000_0000
        },
    ensures
        steps[n] matches Step::Gep { pointer, index } && {
            let before = run_to(w, m, base, steps, n);
            run_to(w, m, base, steps, n + 1) == before.yielding(
                base + n,
                before.address_of(pointer) + before.int_of(index),
            )
        },
{
    lemma_next(w, m, base, steps, n);
    reveal(execute);
    if let Step::Gep { pointer, index } = steps[n] {
        let before = run_to(w, m, base, steps, n);
        let moved = before.int_of(index) * bytes_of(8);
        assert(bytes_of(8) == 1);
        assert(moved == before.int_of(index)) by (nonlinear_arith)
            requires
                moved == before.int_of(index) * bytes_of(8),
                bytes_of(8) == 1,
        ;
        assert((before.address_of(pointer) + moved) % address_space() == before.address_of(pointer)
            + before.int_of(index));
    }
}

/// A division of an integer.
proof fn lemma_quotient<'a>(w: World<'a>, m: Machine, base: int, steps: Seq<Step<'a>>, n: int)
    requires
        0 <= n,
        run_to(w, m, base, steps, n).status is Running,
        steps[n] matches Step::IntUnsignedDiv { lhs, rhs } && run_to(
            w,
            m,
            base,
            steps,
            n,
        ).int_of(rhs) != 0,
    ensures
        steps[n] matches Step::IntUnsignedDiv { lhs, rhs } && {
            let before = run_to(w, m, base, steps, n);
            run_to(w, m, base, steps, n + 1) == before.yielding(
                base + n,
                before.int_of(lhs) / before.int_of(rhs),
            )
        },
{
    lemma_next(w, m, base, steps, n);
    reveal(execute);
}

/// The steps that add up the arguments yield their size.
#[verifier::rlimit(40)]
proof fn lemma_add_arguments<'a>(w: World<'a>, m: Machine, e: Encoding, n: int)
    requires
        m.status is Running,
        sized(w, e),
        0 <= n <= e.spec.len(),
    ensures
        ({
            let after = run(w, m, e.base, e.add_arguments(n));
            &&& only_yielded(m, after, e.base)
            &&& after.int_of(e.arguments_length(n)) == arguments_size(w, e, n)
        }),
    decreases n,
{
    broadcast use lemma_i32;

    lemma_arguments_size(w, e, n);
    if n == 0 {
        lemma_none(w, m, e.base, e.add_arguments::<'a>(0));
    } else {
        lemma_add_arguments(w, m, e, n - 1);
        lemma_arguments_size(w, e, n - 1);
        let first = e.add_arguments::<'a>(n - 1);
        let second: Seq<Step<'a>> = seq![
            Step::DynamicLength {
                arg: e.args[n - 1],
                load: e.load,
                ty: e.spec[n - 1].ty,
                function: e.function,
            },
            Step::IntAdd { lhs: e.arguments_length(n - 1), rhs: int_at(e.base + 2 * n - 2, 32) },
        ];
        let all = e.add_arguments::<'a>(n);
        assert(all =~= first + second) by {
            assert forall|k: int| 0 <= k < all.len() implies all[k] == (first + second)[k] by {
                if k == 2 * n - 2 {
                    assert(k / 2 == n - 1 && k % 2 == 0);
                } else if k == 2 * n - 1 {
                    assert(k / 2 == n - 1 && k % 2 == 1);
                }
            }
        }
        lemma_run_both(w, m, e.base, first, second);
        let m1 = run(w, m, e.base, first);
        let base = e.base + 2 * n - 2;
        let size = (w.dynamic_length)(base);
        lemma_none(w, m1, base, second);
        lemma_next(w, m1, base, second, 0);
        let m2 = m1.yielding(base, size);
        assert(run_to(w, m1, base, second, 1) == m2) by {
            reveal(execute);
        }
        assert(m2.int_of(e.arguments_length(n - 1)) == arguments_size(w, e, n - 1));
        lemma_sum(w, m1, base, second, 1);
    }
}

/// The steps that find the length yield the size of the encoding, and do nothing else.
pub proof fn encode_finds_length<'a>(w: World<'a>, m: Machine, e: Encoding)
    requires
        m.status is Running,
        sized(w, e),
    ensures
        ({
            let after = run(w, m, e.base, e.lengths());
            &&& only_yielded(m, after, e.base)
            &&& after.int_of(e.selector_length()) == selector_size(e) + all_arguments_size(w, e)
            &&& after.int_of(e.length()) == encoding_size(w, e)
        }),
{
    broadcast use lemma_i32;

    let n = e.spec.len() as int;
    let arguments = e.add_arguments::<'a>(n);
    let selector = e.add_selector::<'a>();
    let constant = e.add_constant::<'a>();
    lemma_arguments_size(w, e, n);
    lemma_add_arguments(w, m, e, n);
    lemma_run_both(w, m, e.base, arguments + selector, constant);
    lemma_run_both(w, m, e.base, arguments, selector);
    let m1 = run(w, m, e.base, arguments);
    lemma_none(w, m1, e.after_arguments(), selector);
    if e.selector is Some {
        lemma_sum(w, m1, e.after_arguments(), selector, 0);
    }
    let m2 = run(w, m1, e.after_arguments(), selector);
    assert(only_yielded(m, m2, e.base));
    assert(m2.int_of(e.selector_length()) == selector_size(e) + all_arguments_size(w, e));
    lemma_none(w, m2, e.after_selector(), constant);
    if e.constant is Some {
        lemma_sum(w, m2, e.after_selector(), constant, 0);
    }
}

/// The bytes of a selector, high byte first.
pub open spec fn selector_bytes(selector: u32) -> Seq<u8> {
    seq![
        (selector / 0x100_0000) as u8,
        (selector / 0x1_0000 % 0x100) as u8,
        (selector / 0x100 % 0x100) as u8,
        (selector % 0x100) as u8,
    ]
}

/// The bytes of a number start with its low byte.
proof fn lemma_low_byte(low: u8, high: int, n: nat)
    requires
        0 <= high,
    ensures
        le_bytes(low + 256 * high, n + 1) == seq![low] + le_bytes(high, n),
{
    assert((low + 256 * high) % 256 == low);
    assert((low + 256 * high) / 256 == high);
}

/// The word that is stored for a selector has the selector's bytes in memory.
pub proof fn selector_is_big_endian(selector: u32)
    ensures
        le_bytes(code::selector_word(selector) as int, 4) == selector_bytes(selector),
{
    let bytes = selector_bytes(selector);
    let one = bytes[3] as int;
    let two = bytes[2] + 256 * one;
    let three = bytes[1] + 256 * two;
    let four = bytes[0] + 256 * three;
    assert(code::selector_word(selector) == four);
    assert(bytes[3] + 256 * 0 == one);
    lemma_low_byte(bytes[0], three, 3);
    lemma_low_byte(bytes[1], two, 2);
    lemma_low_byte(bytes[2], one, 1);
    lemma_low_byte(bytes[3], 0, 0);
    assert(le_bytes(four, 4) =~= bytes);
}

/// Where the encoding starts.
pub open spec fn start_of(w: World, e: Encoding) -> int {
    (w.address)(e.allocation())
}

/// Allocates the encoding and writes the selector.
pub proof fn lemma_write_selector<'a>(w: World<'a>, m: Machine, e: Encoding)
    requires
        m.status is Running,
        sized(w, e),
        0 <= start_of(w, e),
        start_of(w, e) + selector_size(e) < 0x1_0000_0000,
    ensures
        ({
            let after = run(w, m, e.allocation(), e.allocate() + e.write_selector());
            let start = start_of(w, e);
            &&& after.status is Running
            &&& after.storage == m.storage
            &&& after.messages == m.messages
            &&& same_registers(m, after, e.allocation())
            &&& after.address_of(e.start()) == start
            &&& after.address_of(e.constant_start()) == start + selector_size(e)
            &&& same_memory(m, after, start, selector_size(e))
            &&& e.selector matches Some(selector) ==> after.bytes(start, 4) == selector_bytes(
                selector,
            )
        }),
{
    broadcast use lemma_i32;

    let s = e.allocate::<'a>() + e.write_selector::<'a>();
    let base = e.allocation();
    let start = start_of(w, e);
    lemma_none(w, m, base, s);
    lemma_call(w, m, base, s, 0);
    let m1 = m.yielding(base, start);
    assert(run_to(w, m, base, s, 1) == m1) by {
        reveal(call);
    }
    if let Some(selector) = e.selector {
        let m2 = m1.yielding(base + 1, start);
        let m3 = m2.writing(start, selector_bytes(selector));
        lemma_cast(w, m, base, s, 1);
        assert(run_to(w, m, base, s, 2) == m2);
        lemma_store(w, m, base, s, 2);
        selector_is_big_endian(selector);
        assert(run_to(w, m, base, s, 3) == m3);
        lemma_byte_offset(w, m, base, s, 3);
        assert(run_to(w, m, base, s, 4) == m3.yielding(base + 3, start + 4));
        assert(run(w, m, base, s).bytes(start, 4) =~= selector_bytes(selector));
    }
}

/// Copies the constant bytes.
pub proof fn lemma_write_constant<'a>(w: World<'a>, m: Machine, e: Encoding)
    requires
        m.status is Running,
        sized(w, e),
        0 <= m.address_of(e.constant_start()),
        m.address_of(e.constant_start()) + constant_size(e) < 0x1_0000_0000,
        constant_size(e) < 0x1_0000_0000,
    ensures
        ({
            let after = run(w, m, e.selector_written(), e.write_constant());
            let start = m.address_of(e.constant_start());
            &&& after.status is Running
            &&& after.storage == m.storage
            &&& after.messages == m.messages
            &&& same_registers(m, after, e.selector_written())
            &&& after.address_of(e.arguments_start()) == start + constant_size(e)
            &&& same_memory(m, after, start, constant_size(e))
            &&& e.constant matches Some((code, len)) ==> after.bytes(start, len as int) == m.bytes(
                m.address_of(code),
                len as int,
            )
        }),
{
    broadcast use lemma_i32;

    let s = e.write_constant::<'a>();
    let base = e.selector_written();
    let start = m.address_of(e.constant_start());
    lemma_none(w, m, base, s);
    if let Some((code, len)) = e.constant {
        let m1 = m.yielding(base, start);
        let from = m.bytes(m.address_of(code), len as int);
        lemma_cast(w, m, base, s, 0);
        assert(run_to(w, m, base, s, 1) == m1);
        lemma_call(w, m, base, s, 1);
        assert(m1.bytes(m.address_of(code), len as int) =~= from);
        let m2 = m1.writing(start, from);
        assert(run_to(w, m, base, s, 2) == m2) by {
            reveal(call);
        }
        lemma_byte_offset(w, m, base, s, 2);
        assert(run_to(w, m, base, s, 3) == m2.yielding(base + 2, start + len));
        assert(run(w, m, base, s).bytes(start, len as int) =~= from);
    }
}

/// Zeroes the arguments and finds where the dynamic parts go.
proof fn lemma_clear_arguments<'a>(w: World<'a>, m: Machine, e: Encoding)
    requires
        m.status is Running,
        sized(w, e),
        m.int_of(e.selector_length()) == selector_size(e) + all_arguments_size(w, e),
        0 <= m.address_of(e.arguments_start()),
        m.address_of(e.arguments_start()) + code::fixed_length(e.spec) < 0x1_0000_0000,
    ensures
        ({
            let after = run(w, m, e.constant_written(), e.clear_arguments());
            let start = m.address_of(e.arguments_start());
            let zeroed = zeroed_size(w, e);
            &&& after.status is Running
            &&& after.storage == m.storage
            &&& after.messages == m.messages
            &&& same_registers(m, after, e.constant_written())
            &&& after.address_of(e.dynamic_start()) == start + code::fixed_length(e.spec)
            &&& 0 <= zeroed
            &&& after.bytes(start, zeroed) == zeros(zeroed as nat)
            &&& same_memory(m, after, start, zeroed)
        }),
{
    broadcast use lemma_i32;

    let s = e.clear_arguments::<'a>();
    let base = e.constant_written();
    let start = m.address_of(e.arguments_start());
    let zeroed = zeroed_size(w, e);
    let words = (selector_size(e) + all_arguments_size(w, e)) / 8;
    lemma_arguments_size(w, e, 0);
    lemma_none(w, m, base, s);
    let m1 = m.yielding(base, words);
    lemma_quotient(w, m, base, s, 0);
    assert(run_to(w, m, base, s, 1) == m1);
    lemma_call(w, m, base, s, 1);
    let m2 = m1.writing(start, zeros(zeroed as nat));
    assert(run_to(w, m, base, s, 2) == m2) by {
        reveal(call);
    }
    lemma_byte_offset(w, m, base, s, 2);
    assert(run_to(w, m, base, s, 3) == m2.yielding(
        base + 2,
        start + code::fixed_length(e.spec),
    ));
    assert(run(w, m, base, s).bytes(start, zeroed) =~= zeros(zeroed as nat));
}

/// What comes before the arguments: the selector, high byte first, and the constant bytes.
pub open spec fn prefix_bytes(m: Machine, e: Encoding) -> Seq<u8> {
    let selector = match e.selector {
        Some(selector) => selector_bytes(selector),
        None => seq![],
    };
    let constant = match e.constant {
        Some((code, len)) => m.bytes(m.address_of(code), len as int),
        None => seq![],
    };
    selector + constant
}

/// Where the arguments start.
pub open spec fn arguments_at(w: World, e: Encoding) -> int {
    start_of(w, e) + selector_size(e) + constant_size(e)
}

/// What the arguments hold before the first of them is written: zeros, and what the memory
/// held where nothing was zeroed.
pub open spec fn blank(w: World, m: Machine, e: Encoding) -> Seq<u8> {
    Seq::new(
        all_arguments_size(w, e) as nat,
        |i: int|
            if i < zeroed_size(w, e) {
                0u8
            } else {
                (m.memory)(arguments_at(w, e) + i)
            },
    )
}

/// Where the size of the arguments is a multiple of eight, they are zeroed and nothing else.
pub proof fn arguments_are_zeroed(w: World, m: Machine, e: Encoding)
    requires
        sized(w, e),
        all_arguments_size(w, e) % 8 == 0,
    ensures
        zeroed_size(w, e) == all_arguments_size(w, e),
        reach(w, e) == encoding_size(w, e),
        blank(w, m, e) == zeros(all_arguments_size(w, e) as nat),
{
    lemma_arguments_size(w, e, 0);
    assert(blank(w, m, e) =~= zeros(all_arguments_size(w, e) as nat));
}

/// The encoding is allocated where it fits, apart from the constant bytes.
pub open spec fn placed(w: World, m: Machine, e: Encoding) -> bool {
    &&& 0 <= start_of(w, e)
    &&& start_of(w, e) + reach(w, e) < 0x1_0000_0000
    &&& e.constant matches Some((code, len)) ==> apart(
        start_of(w, e),
        selector_size(e) + len,
        m.address_of(code),
        len as int,
    )
}

/// Before the arguments are written, the encoding holds the selector, the constant bytes
/// and the blank arguments, the arguments go after the constant bytes, and their dynamic
/// parts after the fixed ones. Where the size of the arguments is a multiple of eight, the
/// arguments are zeros and no memory outside the encoding is written.
#[verifier::rlimit(40)]
pub proof fn encode_lays_out<'a>(w: World<'a>, m: Machine, e: Encoding)
    requires
        m.status is Running,
        sized(w, e),
        placed(w, m, e),
    ensures
        ({
            let after = run(w, m, e.base, e.head());
            let start = start_of(w, e);
            let size = encoding_size(w, e);
            &&& after.status is Running
            &&& after.storage == m.storage
            &&& after.messages == m.messages
            &&& same_registers(m, after, e.base)
            &&& after.address_of(e.start()) == start
            &&& after.int_of(e.length()) == size
            &&& after.bytes(start, size) == prefix_bytes(m, e) + blank(w, m, e)
            &&& after.address_of(e.arguments_start()) == arguments_at(w, e)
            &&& after.address_of(e.dynamic_start()) == arguments_at(w, e) + code::fixed_length(
                e.spec,
            )
            &&& same_memory(m, after, start, reach(w, e))
            &&& all_arguments_size(w, e) % 8 == 0 ==> {
                &&& after.bytes(start, size) == prefix_bytes(m, e) + zeros(
                    all_arguments_size(w, e) as nat,
                )
                &&& same_memory(m, after, start, size)
            }
        }),
{
    let start = start_of(w, e);
    let size = encoding_size(w, e);
    let arguments = all_arguments_size(w, e);
    let before = selector_size(e) + constant_size(e);
    lemma_arguments_size(w, e, 0);
    lemma_run_both(w, m, e.base, e.lengths() + e.prefix(), e.clear_arguments());
    lemma_run_both(w, m, e.base, e.lengths(), e.prefix());
    encode_finds_length(w, m, e);
    let m1 = run(w, m, e.base, e.lengths());
    lemma_run_both(
        w,
        m1,
        e.allocation(),
        e.allocate() + e.write_selector(),
        e.write_constant(),
    );
    lemma_write_selector(w, m1, e);
    let m2 = run(w, m1, e.allocation(), e.allocate() + e.write_selector());
    lemma_write_constant(w, m2, e);
    let m3 = run(w, m2, e.selector_written(), e.write_constant());
    assert(m3.int_of(e.length()) == size);
    assert(m3.int_of(e.selector_length()) == selector_size(e) + arguments);
    assert(m3.address_of(e.arguments_start()) == start + before);
    lemma_clear_arguments(w, m3, e);
    let after = run(w, m3, e.constant_written(), e.clear_arguments());
    assert(e.lengths::<'a>().len() == e.allocation() - e.base);
    assert((e.lengths::<'a>() + e.prefix::<'a>()).len() == e.constant_written() - e.base);
    assert(after == run(w, m, e.base, e.head()));
    assert(after.bytes(start, size) =~= prefix_bytes(m, e) + blank(w, m, e)) by {
        let middle = start + selector_size(e);
        if let Some(selector) = e.selector {
            assert forall|a: int| start <= a < start + 4 implies #[trigger] (after.memory)(a)
                == selector_bytes(selector)[a - start] by {
                assert(m2.bytes(start, 4)[a - start] == (m2.memory)(a));
            }
        }
        if let Some((code, len)) = e.constant {
            let from = m.bytes(m.address_of(code), len as int);
            assert(m2.bytes(m2.address_of(code), len as int) =~= from);
            assert forall|a: int| middle <= a < middle + len implies #[trigger] (after.memory)(a)
                == from[a - middle] by {
                assert(m3.bytes(middle, len as int)[a - middle] == (m3.memory)(a));
            }
        }
        let end = start + before;
        let zeroed = zeroed_size(w, e);
        assert forall|a: int| end <= a < end + arguments implies #[trigger] (after.memory)(a)
            == blank(w, m, e)[a - end] by {
            if a < end + zeroed {
                assert(after.bytes(end, zeroed)[a - end] == (after.memory)(a));
            } else {
                assert((after.memory)(a) == (m3.memory)(a));
            }
        }
    }
    if arguments % 8 == 0 {
        arguments_are_zeroed(w, m, e);
    }
}

/// What the rest of the compiler writes for an argument goes to the area from `from` up to
/// `to` and leaves everything else alone.
pub open spec fn encodes_within(w: World, from: int, to: int) -> bool {
    forall|m: Machine, k: int, step: Step|
        step is EncodeTy && m.status is Running ==> {
            let after = #[trigger] (w.other)(m, k, step);
            &&& after.status is Running
            &&& after.messages == m.messages
            &&& same_registers(m, after, k)
            &&& same_memory(m, after, from, to - from)
        }
}

/// The arguments are written where they belong.
pub proof fn encode_writes_arguments<'a>(
    w: World<'a>,
    m: Machine,
    e: Encoding,
    n: int,
    from: int,
    to: int,
)
    requires
        m.status is Running,
        encodes_within(w, from, to),
        0 <= n,
    ensures
        ({
            let after = run(w, m, e.first_argument(), e.write_arguments(n));
            &&& after.status is Running
            &&& after.messages == m.messages
            &&& same_registers(m, after, e.first_argument())
            &&& same_memory(m, after, from, to - from)
        }),
    decreases n,
{
    lemma_none(w, m, e.first_argument(), e.write_arguments::<'a>(n));
    if n > 0 {
        encode_writes_arguments(w, m, e, n - 1, from, to);
        lemma_write_last(w, m, e, n);
    }
}

/// Once the arguments are written, the encoding still starts with the selector and the
/// constant bytes.
#[verifier::rlimit(40)]
pub proof fn encode_starts_with_prefix<'a>(w: World<'a>, m: Machine, e: Encoding)
    requires
        m.status is Running,
        sized(w, e),
        placed(w, m, e),
        encodes_within(
            w,
            start_of(w, e) + selector_size(e) + constant_size(e),
            start_of(w, e) + encoding_size(w, e),
        ),
    ensures
        ({
            let after = run(w, m, e.base, e.code());
            let start = start_of(w, e);
            let before = selector_size(e) + constant_size(e);
            let size = encoding_size(w, e);
            &&& after.status is Running
            &&& after.messages == m.messages
            &&& same_registers(m, after, e.base)
            &&& after.address_of(e.start()) == start
            &&& after.int_of(e.length()) == size
            &&& before <= size
            &&& after.bytes(start, size).take(before) == prefix_bytes(m, e)
            &&& same_memory(m, after, start, reach(w, e))
            &&& all_arguments_size(w, e) % 8 == 0 ==> same_memory(m, after, start, size)
        }),
{
    let start = start_of(w, e);
    let before = selector_size(e) + constant_size(e);
    let size = encoding_size(w, e);
    let n = e.spec.len() as int;
    lemma_arguments_size(w, e, 0);
    encode_lays_out(w, m, e);
    lemma_run_both(w, m, e.base, e.head(), e.write_arguments(n));
    let m1 = run(w, m, e.base, e.head());
    assert(e.head::<'a>().len() == e.first_argument() - e.base);
    encode_writes_arguments(w, m1, e, n, start + before, start + size);
    let after = run(w, m1, e.first_argument(), e.write_arguments(n));
    assert(after == run(w, m, e.base, e.code()));
    assert(prefix_bytes(m, e).len() == before);
    assert forall|i: int| 0 <= i < before implies after.bytes(start, size).take(before)[i]
        == prefix_bytes(m, e)[i] by {
        assert(m1.bytes(start, size)[i] == prefix_bytes(m, e)[i]);
        assert((after.memory)(start + i) == (m1.memory)(start + i));
    }
    assert(after.bytes(start, size).take(before) =~= prefix_bytes(m, e));
}

/// What the rest of the compiler encodes: an argument, its place as a distance from the
/// start of the arguments, the offset of its dynamic part, and that part's place as such a
/// distance.
pub ghost struct Argument {
    pub load: bool,
    pub ty: Type,
    pub value: int,
    pub data: int,
    pub offset: int,
    pub dynamic: int,
}

/// What encoding an argument comes to: the bytes of all arguments, and the next argument's
/// place, offset and dynamic place.
pub ghost struct Written {
    pub area: Seq<u8>,
    pub data: int,
    pub offset: int,
    pub dynamic: int,
}

/// A way to encode arguments. It does not depend on where the arguments are.
pub type Encoder = spec_fn(Argument, Seq<u8>) -> Written;

/// What an `EncodeTy` step encodes, for arguments that start at an address.
pub open spec fn argument_of(m: Machine, step: Step, start: int) -> Argument {
    match step {
        Step::EncodeTy { load, ty, arg, data, offset, dynamic, .. } => Argument {
            load,
            ty,
            value: m.value_of(arg),
            data: m.address_of(data) - start,
            offset: m.int_of(offset),
            dynamic: m.address_of(dynamic) - start,
        },
        _ => arbitrary(),
    }
}

/// The rest of the compiler encodes the arguments, which take `size` bytes from `start` on,
/// in that way, and leaves everything else alone.
pub open spec fn encodes_as(w: World, encoder: Encoder, start: int, size: int) -> bool {
    forall|m: Machine, k: int, step: Step|
        step is EncodeTy && m.status is Running ==> {
            let after = #[trigger] (w.other)(m, k, step);
            let written = encoder(argument_of(m, step, start), m.bytes(start, size));
            &&& after.status is Running
            &&& after.messages == m.messages
            &&& same_registers(m, after, k)
            &&& same_memory(m, after, start, size)
            &&& after.bytes(start, size) == written.area
            &&& (after.registers)(k, 0) == start + written.data
            &&& (after.registers)(k, 1) == written.offset
            &&& (after.registers)(k, 2) == start + written.dynamic
        }
}

/// What encoding one argument comes to.
pub open spec fn encode_one(
    encoder: Encoder,
    load: bool,
    ty: Type,
    value: int,
    before: Written,
) -> Written {
    let argument = Argument {
        load,
        ty,
        value,
        data: before.data,
        offset: before.offset,
        dynamic: before.dynamic,
    };
    encoder(argument, before.area)
}

/// What encoding the first `n` arguments comes to, where their bytes are `area` at first.
pub open spec fn encode_first(
    encoder: Encoder,
    load: bool,
    spec: Seq<Parameter>,
    values: Seq<int>,
    area: Seq<u8>,
    n: int,
) -> Written
    decreases n,
{
    if n <= 0 {
        let fixed = code::fixed_length(spec) as int;
        Written { area, data: 0, offset: fixed, dynamic: fixed }
    } else {
        encode_one(
            encoder,
            load,
            spec[n - 1].ty,
            values[n - 1],
            encode_first(encoder, load, spec, values, area, n - 1),
        )
    }
}

/// The bytes that the arguments are encoded to, where they are `area` at first.
pub open spec fn encode_all(
    encoder: Encoder,
    load: bool,
    spec: Seq<Parameter>,
    values: Seq<int>,
    area: Seq<u8>,
) -> Seq<u8> {
    encode_first(encoder, load, spec, values, area, spec.len() as int).area
}

/// Encoding the arguments writes each of their bytes: it makes no difference what the bytes
/// are at first.
pub open spec fn overwrites(
    encoder: Encoder,
    load: bool,
    spec: Seq<Parameter>,
    values: Seq<int>,
    size: int,
) -> bool {
    forall|a: Seq<u8>, b: Seq<u8>|
        a.len() == size && b.len() == size ==> #[trigger] encode_all(
            encoder,
            load,
            spec,
            values,
            a,
        ) == #[trigger] encode_all(encoder, load, spec, values, b)
}

/// The arguments were there before the encoding started.
pub open spec fn arguments_before(e: Encoding) -> bool {
    forall|i: int| 0 <= i < e.spec.len() ==> value_before(#[trigger] e.args[i], e.base)
}

/// The values of the arguments.
pub open spec fn argument_values(m: Machine, e: Encoding) -> Seq<int> {
    Seq::new(e.spec.len(), |i: int| m.value_of(e.args[i]))
}

/// The machine is about to write argument `n`: these are the bytes of the arguments, and the
/// place, offset and dynamic place of the argument, as distances from their start.
spec fn stands(m: Machine, w: World, e: Encoding, n: int, written: Written) -> bool {
    let start = arguments_at(w, e);
    &&& m.status is Running
    &&& m.bytes(start, all_arguments_size(w, e)) == written.area
    &&& m.address_of(e.data(n)) == start + written.data
    &&& m.int_of(e.offset(n)) == written.offset
    &&& m.address_of(e.dynamic(n)) == start + written.dynamic
}

/// Writing one argument.
proof fn lemma_write_one<'a>(
    w: World<'a>,
    m: Machine,
    e: Encoding,
    encoder: Encoder,
    n: int,
    before: Written,
)
    requires
        sized(w, e),
        0 <= n < e.spec.len(),
        encodes_as(w, encoder, arguments_at(w, e), all_arguments_size(w, e)),
        stands(m, w, e, n, before),
    ensures
        ({
            let step = e.write_arguments::<'a>(n + 1)[n];
            let after = (w.other)(m, e.first_argument() + n, step);
            &&& stands(
                after,
                w,
                e,
                n + 1,
                encode_one(encoder, e.load, e.spec[n].ty, m.value_of(e.args[n]), before),
            )
            &&& same_registers(m, after, e.first_argument() + n)
        }),
{
    let start = arguments_at(w, e);
    let step = e.write_arguments::<'a>(n + 1)[n];
    let k = e.first_argument() + n;
    let after = (w.other)(m, k, step);
    assert(step is EncodeTy);
    assert(argument_of(m, step, start) == (Argument {
        load: e.load,
        ty: e.spec[n].ty,
        value: m.value_of(e.args[n]),
        data: before.data,
        offset: before.offset,
        dynamic: before.dynamic,
    }));
    assert(0 <= k <= usize::MAX);
    assert(after.status is Running);
}

/// Writing the first `n` arguments.
proof fn lemma_write_first<'a>(
    w: World<'a>,
    m: Machine,
    e: Encoding,
    encoder: Encoder,
    area: Seq<u8>,
    n: int,
)
    requires
        sized(w, e),
        0 <= n <= e.spec.len(),
        arguments_before(e),
        encodes_as(w, encoder, arguments_at(w, e), all_arguments_size(w, e)),
        stands(
            m,
            w,
            e,
            0,
            encode_first(encoder, e.load, e.spec, argument_values(m, e), area, 0),
        ),
    ensures
        ({
            let after = run(w, m, e.first_argument(), e.write_arguments(n));
            &&& stands(
                after,
                w,
                e,
                n,
                encode_first(encoder, e.load, e.spec, argument_values(m, e), area, n),
            )
            &&& same_registers(m, after, e.first_argument())
        }),
    decreases n,
{
    lemma_none(w, m, e.first_argument(), e.write_arguments::<'a>(n));
    if n > 0 {
        lemma_write_first(w, m, e, encoder, area, n - 1);
        lemma_write_last(w, m, e, n);
        let m1 = run(w, m, e.first_argument(), e.write_arguments(n - 1));
        let values = argument_values(m, e);
        let before = encode_first(encoder, e.load, e.spec, values, area, n - 1);
        lemma_write_one(w, m1, e, encoder, n - 1, before);
        assert(value_before(e.args[n - 1], e.base));
        assert(m1.value_of(e.args[n - 1]) == values[n - 1]);
    }
}

/// The last of some arguments is written after the others.
proof fn lemma_write_last<'a>(w: World<'a>, m: Machine, e: Encoding, n: int)
    requires
        0 < n,
        run(w, m, e.first_argument(), e.write_arguments(n - 1)).status is Running,
    ensures
        run(w, m, e.first_argument(), e.write_arguments(n)) == (w.other)(
            run(w, m, e.first_argument(), e.write_arguments(n - 1)),
            e.first_argument() + n - 1,
            e.write_arguments::<'a>(n)[n - 1],
        ),
{
    let all = e.write_arguments::<'a>(n);
    let last = seq![all[n - 1]];
    assert(all =~= e.write_arguments::<'a>(n - 1) + last);
    lemma_run_both(w, m, e.first_argument(), e.write_arguments(n - 1), last);
    let m1 = run(w, m, e.first_argument(), e.write_arguments(n - 1));
    let k = e.first_argument() + n - 1;
    lemma_none(w, m1, k, last);
    lemma_next(w, m1, k, last, 0);
    assert(run_to(w, m1, k, last, 1) == (w.other)(m1, k, all[n - 1])) by {
        reveal(execute);
    }
}

/// Code that encodes arguments in some way writes no memory but theirs.
proof fn lemma_encodes_within(w: World, encoder: Encoder, start: int, size: int)
    requires
        encodes_as(w, encoder, start, size),
    ensures
        encodes_within(w, start, start + size),
{
}

/// The bytes of an encoding after its code has run.
pub open spec fn encoded<'a>(w: World<'a>, m: Machine, e: Encoding) -> Seq<u8> {
    let after = run(w, m, e.base, e.code());
    after.bytes(after.address_of(e.start()), after.int_of(e.length()))
}

/// Before the first argument is written, the arguments are blank.
proof fn lemma_head_stands<'a>(w: World<'a>, m: Machine, e: Encoding, encoder: Encoder)
    requires
        m.status is Running,
        sized(w, e),
        placed(w, m, e),
        arguments_before(e),
    ensures
        ({
            let after = run(w, m, e.base, e.head());
            let values = argument_values(m, e);
            &&& stands(
                after,
                w,
                e,
                0,
                encode_first(encoder, e.load, e.spec, values, blank(w, m, e), 0),
            )
            &&& argument_values(after, e) == values
        }),
{
    broadcast use lemma_i32;

    encode_lays_out(w, m, e);
    lemma_arguments_size(w, e, 0);
    let after = run(w, m, e.base, e.head());
    let start = start_of(w, e);
    let before = selector_size(e) + constant_size(e);
    let size = all_arguments_size(w, e);
    let whole = after.bytes(start, before + size);
    assert(prefix_bytes(m, e).len() == before);
    let area = after.bytes(start + before, size);
    assert forall|i: int| 0 <= i < size implies #[trigger] area[i] == blank(w, m, e)[i] by {
        assert(whole[before + i] == (prefix_bytes(m, e) + blank(w, m, e))[before + i]);
    }
    assert(area =~= blank(w, m, e));
    assert forall|i: int| 0 <= i < e.spec.len() implies after.value_of(e.args[i]) == m.value_of(
        #[trigger] e.args[i],
    ) by {
        assert(value_before(e.args[i], e.base));
    }
    assert(argument_values(after, e) =~= argument_values(m, e));
}

/// An encoding is the selector, the constant bytes and the encoded arguments. The arguments
/// are encoded in the same way wherever they are: offsets are counted from their start.
#[verifier::rlimit(40)]
pub proof fn encoding_is_prefix_and_arguments<'a>(
    w: World<'a>,
    m: Machine,
    e: Encoding,
    encoder: Encoder,
)
    requires
        m.status is Running,
        sized(w, e),
        placed(w, m, e),
        arguments_before(e),
        encodes_as(w, encoder, arguments_at(w, e), all_arguments_size(w, e)),
    ensures
        encoded(w, m, e) == prefix_bytes(m, e) + encode_all(
            encoder,
            e.load,
            e.spec,
            argument_values(m, e),
            blank(w, m, e),
        ),
        encoded(w, m, e).len() == encoding_size(w, e),
{
    let n = e.spec.len() as int;
    let before = selector_size(e) + constant_size(e);
    let size = all_arguments_size(w, e);
    let start = start_of(w, e);
    let values = argument_values(m, e);
    lemma_arguments_size(w, e, 0);
    lemma_encodes_within(w, encoder, arguments_at(w, e), size);
    encode_starts_with_prefix(w, m, e);
    lemma_head_stands(w, m, e, encoder);
    let m1 = run(w, m, e.base, e.head());
    lemma_write_first(w, m1, e, encoder, blank(w, m, e), n);
    lemma_run_both(w, m, e.base, e.head(), e.write_arguments(n));
    assert(e.head::<'a>().len() == e.first_argument() - e.base);
    let after = run(w, m, e.base, e.code());
    let whole = encoded(w, m, e);
    let tail = encode_all(encoder, e.load, e.spec, values, blank(w, m, e));
    assert(after.bytes(start + before, size) == tail);
    assert(prefix_bytes(m, e).len() == before);
    assert forall|i: int| 0 <= i < whole.len() implies whole[i] == (prefix_bytes(m, e) + tail)[i] by {
        if i < before {
            assert(whole.take(before)[i] == prefix_bytes(m, e)[i]);
        } else {
            assert(after.bytes(start + before, size)[i - before] == whole[i]);
        }
    }
    assert(whole =~= prefix_bytes(m, e) + tail);
}

/// Two encodings are of the same arguments, whatever comes before these.
pub open spec fn same_arguments<'a>(
    w: World<'a>,
    m: Machine,
    e: Encoding,
    other_w: World<'a>,
    other_m: Machine,
    other: Encoding,
) -> bool {
    &&& e.load == other.load
    &&& e.spec == other.spec
    &&& arguments_before(e)
    &&& arguments_before(other)
    &&& forall|i: int|
        0 <= i < e.spec.len() ==> m.value_of(#[trigger] e.args[i]) == other_m.value_of(
            other.args[i],
        )
    &&& forall|i: int|
        0 <= i < e.spec.len() ==> #[trigger] dynamic_size(w, e, i) == dynamic_size(
            other_w,
            other,
            i,
        )
}

/// The same arguments take the same number of bytes.
proof fn lemma_same_size<'a>(
    w: World<'a>,
    m: Machine,
    e: Encoding,
    other_w: World<'a>,
    other_m: Machine,
    other: Encoding,
    n: int,
)
    requires
        same_arguments(w, m, e, other_w, other_m, other),
        n <= e.spec.len(),
    ensures
        arguments_size(w, e, n) == arguments_size(other_w, other, n),
    decreases n,
{
    if n > 0 {
        lemma_same_size(w, m, e, other_w, other_m, other, n - 1);
        assert(dynamic_size(w, e, n - 1) == dynamic_size(other_w, other, n - 1));
    }
}

/// Two runs encode the same arguments in the same way. The size of the arguments is a
/// multiple of eight, or else the blank arguments are the same or each of their bytes is
/// written.
pub open spec fn both_encode<'a>(
    w: World<'a>,
    m: Machine,
    e: Encoding,
    other_w: World<'a>,
    other_m: Machine,
    other: Encoding,
    encoder: Encoder,
) -> bool {
    let size = all_arguments_size(w, e);
    &&& m.status is Running
    &&& other_m.status is Running
    &&& sized(w, e)
    &&& sized(other_w, other)
    &&& placed(w, m, e)
    &&& placed(other_w, other_m, other)
    &&& same_arguments(w, m, e, other_w, other_m, other)
    &&& encodes_as(w, encoder, arguments_at(w, e), size)
    &&& encodes_as(
        other_w,
        encoder,
        arguments_at(other_w, other),
        all_arguments_size(other_w, other),
    )
    &&& {
        ||| size % 8 == 0
        ||| blank(w, m, e) == blank(other_w, other_m, other)
        ||| overwrites(encoder, e.load, e.spec, argument_values(m, e), size)
    }
}

/// An encoding with a selector or constant bytes is these, followed by the encoding of the
/// same arguments without them.
pub proof fn encoding_is_prefixed<'a>(
    w: World<'a>,
    m: Machine,
    e: Encoding,
    bare_w: World<'a>,
    bare_m: Machine,
    bare: Encoding,
    encoder: Encoder,
)
    requires
        both_encode(w, m, e, bare_w, bare_m, bare, encoder),
        bare.selector is None,
        bare.constant is None,
    ensures
        encoded(w, m, e) == prefix_bytes(m, e) + encoded(bare_w, bare_m, bare),
        encoded(w, m, e).len() == selector_size(e) + constant_size(e) + encoded(
            bare_w,
            bare_m,
            bare,
        ).len(),
{
    let size = all_arguments_size(w, e);
    let values = argument_values(m, e);
    lemma_same_size(w, m, e, bare_w, bare_m, bare, e.spec.len() as int);
    encoding_is_prefix_and_arguments(w, m, e, encoder);
    encoding_is_prefix_and_arguments(bare_w, bare_m, bare, encoder);
    assert(argument_values(bare_m, bare) =~= values);
    let area = blank(w, m, e);
    let bare_area = blank(bare_w, bare_m, bare);
    assert(encode_all(encoder, e.load, e.spec, values, area) == encode_all(
        encoder,
        e.load,
        e.spec,
        values,
        bare_area,
    )) by {
        lemma_arguments_size(w, e, 0);
        if size % 8 == 0 {
            arguments_are_zeroed(w, m, e);
            arguments_are_zeroed(bare_w, bare_m, bare);
        } else {
            assert(area.len() == size && bare_area.len() == size);
        }
    }
    assert(prefix_bytes(bare_m, bare) =~= seq![]);
    assert(prefix_bytes(bare_m, bare) + encode_all(encoder, e.load, e.spec, values, bare_area)
        =~= encode_all(encoder, e.load, e.spec, values, bare_area));
}

/// An encoding with a selector is the selector's four bytes, high byte first, followed by
/// the encoding of the same arguments without it.
pub proof fn selector_is_a_prefix<'a>(
    w: World<'a>,
    m: Machine,
    e: Encoding,
    bare_w: World<'a>,
    bare_m: Machine,
    bare: Encoding,
    encoder: Encoder,
    selector: u32,
)
    requires
        both_encode(w, m, e, bare_w, bare_m, bare, encoder),
        e.selector == Some(selector),
        e.constant is None,
        bare.selector is None,
        bare.constant is None,
    ensures
        encoded(w, m, e) == selector_bytes(selector) + encoded(bare_w, bare_m, bare),
        encoded(w, m, e).len() == encoded(bare_w, bare_m, bare).len() + 4,
{
    encoding_is_prefixed(w, m, e, bare_w, bare_m, bare, encoder);
    assert(prefix_bytes(m, e) =~= selector_bytes(selector));
}

/// An encoding with constant bytes is these, unchanged, followed by the encoding of the same
/// arguments without them.
pub proof fn constant_is_a_prefix<'a>(
    w: World<'a>,
    m: Machine,
    e: Encoding,
    bare_w: World<'a>,
    bare_m: Machine,
    bare: Encoding,
    encoder: Encoder,
    constant: (PointerOperand, u64),
)
    requires
        both_encode(w, m, e, bare_w, bare_m, bare, encoder),
        e.selector is None,
        e.constant == Some(constant),
        bare.selector is None,
        bare.constant is None,
    ensures
        encoded(w, m, e) == m.bytes(m.address_of(constant.0), constant.1 as int) + encoded(
            bare_w,
            bare_m,
            bare,
        ),
        encoded(w, m, e).len() == encoded(bare_w, bare_m, bare).len() + constant.1,
{
    encoding_is_prefixed(w, m, e, bare_w, bare_m, bare, encoder);
    assert(prefix_bytes(m, e) =~= m.bytes(m.address_of(constant.0), constant.1 as int));
}

/// The sum of the numbers of bytes that values of the parameters' types take in the fixed
/// part.
pub open spec fn heads(spec: Seq<Parameter>) -> int {
    spec.fold_left(0int, |sum: int, p: Parameter| sum + p.ty.encoded_fixed_length)
}

/// The sum of the numbers of bytes that the first `n` arguments take in the dynamic part.
pub open spec fn tails(w: World, e: Encoding, n: int) -> int
    decreases n,
{
    if n <= 0 {
        0
    } else {
        tails(w, e, n - 1) + dynamic_size(w, e, n - 1)
    }
}

/// The fixed part is that of some parameters and that of the others together, wherever they
/// are parted. That of one parameter is what its type takes, that of none is empty.
pub proof fn fixed_length_adds_up(first: Seq<Parameter>, second: Seq<Parameter>, one: Parameter)
    ensures
        code::fixed_length(first + second) == code::fixed_length(first) + code::fixed_length(
            second,
        ),
        code::fixed_length(seq![one]) == one.ty.encoded_fixed_length,
        code::fixed_length(seq![]) == 0,
    decreases second.len(),
{
    reveal_with_fuel(code::fixed_length, 2);
    assert(seq![one].drop_last() =~= Seq::<Parameter>::empty());
    if second.len() == 0 {
        assert(first + second =~= first);
    } else {
        fixed_length_adds_up(first, second.drop_last(), one);
        assert((first + second).drop_last() =~= first + second.drop_last());
        assert((first + second).last() == second.last());
    }
}

/// The fixed part has room for the head of every parameter.
pub proof fn fixed_length_is_sum_of_heads(spec: Seq<Parameter>)
    ensures
        code::fixed_length(spec) == heads(spec),
    decreases spec.len(),
{
    if spec.len() > 0 {
        fixed_length_is_sum_of_heads(spec.drop_last());
    }
}

/// Parameters that take `size` bytes each take `size` times their number in the fixed part.
pub proof fn equal_heads_multiply(spec: Seq<Parameter>, size: u64)
    requires
        forall|i: int|
            0 <= i < spec.len() ==> (#[trigger] spec[i]).ty.encoded_fixed_length == size,
    ensures
        code::fixed_length(spec) == size * spec.len(),
    decreases spec.len(),
{
    if spec.len() > 0 {
        let rest = spec.drop_last();
        assert forall|i: int| 0 <= i < rest.len() implies (
        #[trigger] rest[i]).ty.encoded_fixed_length == size by {
            assert(rest[i] == spec[i]);
        }
        equal_heads_multiply(rest, size);
        assert(size * spec.len() == size * rest.len() + size) by (nonlinear_arith)
            requires
                spec.len() == rest.len() + 1,
        ;
    }
}

/// The first arguments take their heads and their dynamic parts.
pub proof fn lemma_size_is_heads_and_tails(w: World, e: Encoding, n: int)
    ensures
        arguments_size(w, e, n) == heads(e.spec) + tails(w, e, n),
    decreases n,
{
    if n <= 0 {
        fixed_length_is_sum_of_heads(e.spec);
    } else {
        lemma_size_is_heads_and_tails(w, e, n - 1);
    }
}

/// An encoding is as long as its parts: four bytes for a selector, the constant bytes, and
/// the head and the dynamic part of each argument. The heads come first: the first dynamic
/// part goes right after the last head, and its offset is the size of the heads.
pub proof fn encode_reserves_every_argument<'a>(w: World<'a>, m: Machine, e: Encoding)
    requires
        m.status is Running,
        sized(w, e),
        placed(w, m, e),
    ensures
        ({
            let n = e.spec.len() as int;
            let after = run(w, m, e.base, e.head());
            let before = if e.selector is Some {
                4int
            } else {
                0int
            } + match e.constant {
                Some((_, len)) => len as int,
                None => 0,
            };
            &&& after.int_of(e.length()) == before + heads(e.spec) + tails(w, e, n)
            &&& after.address_of(e.data(0)) == after.address_of(e.start()) + before
            &&& after.int_of(e.offset(0)) == heads(e.spec)
            &&& after.address_of(e.dynamic(0)) == after.address_of(e.data(0)) + heads(e.spec)
        }),
{
    broadcast use lemma_i32;

    encode_lays_out(w, m, e);
    lemma_size_is_heads_and_tails(w, e, e.spec.len() as int);
    fixed_length_is_sum_of_heads(e.spec);
    lemma_arguments_size(w, e, 0);
}

/// Each argument is measured and written exactly once, as a value of its own parameter's
/// type, with the same `load` and in the same function, in the order of the parameters.
/// Nothing else is measured or written.
pub proof fn encode_takes_each_argument_once<'a>(e: Encoding, k: int)
    requires
        0 <= k < e.code::<'a>().len(),
    ensures
        ({
            let n = e.spec.len() as int;
            let code = e.code::<'a>();
            let first = code.len() - n;
            &&& first >= 2 * n
            &&& code[k] is DynamicLength <==> k < 2 * n && k % 2 == 0
            &&& code[k] matches Step::DynamicLength { arg, load, ty, function } ==> {
                &&& arg == e.args[k / 2]
                &&& ty == e.spec[k / 2].ty
                &&& load == e.load
                &&& function == e.function
            }
            &&& code[k] is EncodeTy <==> first <= k
            &&& code[k] matches Step::EncodeTy { arg, load, ty, function, .. } ==> {
                &&& arg == e.args[k - first]
                &&& ty == e.spec[k - first].ty
                &&& load == e.load
                &&& function == e.function
            }
        }),
{
    let n = e.spec.len() as int;
    let lengths = e.add_arguments::<'a>(n);
    if k < 2 * n {
        assert(e.code::<'a>()[k] == lengths[k]);
    }
}

} // verus!
