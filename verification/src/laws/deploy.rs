//! Deployment: the deployer returns the runtime, the runtime dispatches, and a creation
//! succeeds or reverts.
use crate::code::{self, Encoding};
use crate::ir::{
    FunctionRef, IntOperand, List, Operand, PointerOperand, Step, Symbol, block_at, i32_const, int_at,
    pointer_at,
};
use crate::laws::encoding::{
    Encoder, all_arguments_size, argument_values, arguments_at, arguments_before, blank, encode_all,
    encode_starts_with_prefix, encoded, encodes_as, encodes_within, encoding_is_prefix_and_arguments,
    encoding_size, heads, lemma_size_is_heads_and_tails, placed, prefix_bytes, sized, start_of, tails,
};
use crate::laws::host::{
    deployer_prelude_copies_arguments, runtime_prelude_copies_call_data,
};
use crate::machine::{
    Machine, Message, Status, World, apart, call, ended, execute, int_before, lemma_call,
    lemma_append, lemma_ended, lemma_global, lemma_i32, lemma_land, lemma_next, lemma_none,
    lemma_other, lemma_pass, lemma_run_both, lemma_run_start, lemma_stop, numbered, pointer_before, run, run_to, zeros,
};
use crate::resolver::{Contract, Parameter};
use vstd::prelude::*;

verus! {

/// The code of the rest of the compiler goes on with the next step.
pub open spec fn others_go_on(w: World) -> bool {
    forall|m: Machine, k: int, step: Step|
        m.status is Running ==> (#[trigger] (w.other)(m, k, step)).status is Running
}

/// Ends the execution with a global.
spec fn finishing<'a>(base: int, global: int, size: int) -> Seq<Step<'a>> {
    seq![
        Step::GlobalString { global: global as usize },
        code::call(
            Symbol::Finish,
            List::Two(
                code::pointer_arg(pointer_at(base, 8)),
                code::int_arg(i32_const(size as u64)),
            ),
        ),
        Step::Unreachable,
    ]
}

proof fn lemma_finish_global<'a>(w: World<'a>, m: Machine, base: int, global: int, size: int)
    requires
        m.status is Running,
        numbered(base, 3),
        0 <= global <= usize::MAX,
        global < w.globals.len(),
        size == w.globals[global].len(),
        size < 0x1_0000_0000,
    ensures
        ({
            let after = run(w, m, base, finishing(base, global, size));
            &&& after.status == Status::Finished(w.globals[global])
            &&& after.storage == m.storage
            &&& after.messages == m.messages
            &&& after.printed == m.printed
        }),
{
    broadcast use lemma_i32;

    let s = finishing::<'a>(base, global, size);
    let place = (w.address)(base);
    let m1 = m.writing(place, w.globals[global]).yielding(base, place);
    lemma_none(w, m, base, s);
    lemma_global(w, m, base, s, 0);
    lemma_call(w, m, base, s, 1);
    assert(m1.bytes(place, size) =~= w.globals[global]);
    assert(run_to(w, m, base, s, 2) == (Machine {
        status: Status::Finished(w.globals[global]),
        ..m1
    })) by {
        reveal(call);
    }
    lemma_ended(w, m, base, s, 2, 3);
}

/// The deployer ends the execution with exactly the runtime code, once the initializer and
/// the constructor have returned. Where its own code is shorter than `CODE_SIZE`, it traps.
#[verifier::rlimit(40)]
pub proof fn deployer_returns_runtime<'a>(
    w: World<'a>,
    m: Machine,
    base: int,
    contract: &'a Contract,
    constructors: Seq<FunctionRef>,
    global: int,
    size: int,
)
    requires
        m.status == Status::Jumped(base + 2),
        numbered(base, 16),
        w.code.len() < 0x1_0000_0000,
        others_go_on(w),
        contract.constructors@.len() > 0 ==> !(constructors[0] is Symbol),
        0 <= global <= usize::MAX,
        global < w.globals.len(),
        size == w.globals[global].len(),
        size < 0x1_0000_0000,
    ensures
        run(
            w,
            m,
            base,
            code::deployer_dispatch(base, contract, constructors, global, size),
        ).status == if w.code.len() < code::CODE_SIZE {
            Status::Trapped
        } else {
            Status::Finished(w.globals[global])
        },
{
    let main = FunctionRef::Added((base + 1) as usize);
    let start: Seq<Step<'a>> = seq![Step::EmitInitializer, code::add_main()];
    let prelude = code::deployer_prelude(base + 2, main);
    let initialize: Seq<Step<'a>> = seq![
        Step::Call { callee: FunctionRef::Initializer(base as usize), args: List::Zero, name: "" },
    ];
    let constructor = code::construct(
        base + 11,
        contract,
        constructors,
        main,
        pointer_at(base + 9, 32),
        int_at(base + 6, 32),
    );
    let end = base + 11 + constructor.len();
    let finish: Seq<Step<'a>> = seq![
        Step::GlobalString { global: global as usize },
        code::call(
            Symbol::Finish,
            List::Two(
                code::pointer_arg(pointer_at(end, 8)),
                code::int_arg(i32_const(size as u64)),
            ),
        ),
        Step::Unreachable,
    ];
    let s = code::deployer_dispatch(base, contract, constructors, global, size);
    assert(s == start + prelude + initialize + constructor + finish);
    lemma_run_both(w, m, base, start + prelude + initialize + constructor, finish);
    lemma_run_both(w, m, base, start + prelude + initialize, constructor);
    lemma_run_both(w, m, base, start + prelude, initialize);
    lemma_run_both(w, m, base, start, prelude);
    lemma_none(w, m, base, start);
    lemma_pass(w, m, base, start, 0);
    lemma_pass(w, m, base, start, 1);
    assert(run(w, m, base, start) == m);
    deployer_prelude_copies_arguments(w, m, base + 2, main);
    let m1 = run(w, m, base + 2, prelude);
    let m2 = run(w, m1, base + 10, initialize);
    let m3 = run(w, m2, base + 11, constructor);
    lemma_none(w, m1, base + 10, initialize);
    lemma_none(w, m2, base + 11, constructor);
    lemma_none(w, m3, end, finish);
    if w.code.len() < code::CODE_SIZE {
        lemma_ended(w, m1, base + 10, initialize, 0, 1);
        lemma_ended(w, m2, base + 11, constructor, 0, constructor.len() as int);
        lemma_ended(w, m3, end, finish, 0, 3);
    } else {
        lemma_next(w, m1, base + 10, initialize, 0);
        assert(m2.status is Running) by {
            reveal(execute);
        }
        if contract.constructors@.len() > 0 {
            lemma_next(w, m2, base + 11, constructor, 0);
            assert(run_to(w, m2, base + 11, constructor, 1).status is Running) by {
                reveal(execute);
            }
            lemma_next(w, m2, base + 11, constructor, 1);
            assert(m3.status is Running) by {
                reveal(execute);
            }
        }
        lemma_finish_global(w, m3, end, global, size);
    }
}

/// Steps that add no instruction pass a machine that goes on elsewhere.
proof fn lemma_skips<'a>(w: World<'a>, m: Machine, base: int, steps: Seq<Step<'a>>, n: int)
    requires
        m.status is Jumped,
        0 <= n <= steps.len(),
        forall|k: int| 0 <= k < n ==> !(#[trigger] steps[k] is PositionAtEnd),
    ensures
        run_to(w, m, base, steps, n) == m,
    decreases n,
{
    lemma_none(w, m, base, steps);
    if n > 0 {
        lemma_skips(w, m, base, steps, n - 1);
        lemma_pass(w, m, base, steps, n - 1);
    }
}

/// What comes before an entry point in a module.
proof fn lemma_module_head<'a>(w: World<'a>, m: Machine)
    requires
        m.status is Jumped,
    ensures
        run(w, m, 0, code::declare_externals(0) + seq![Step::EmitFunctions]) == m,
        (code::declare_externals::<'a>(0) + seq![Step::EmitFunctions]).len() == 16,
{
    let head = code::declare_externals::<'a>(0) + seq![Step::EmitFunctions];
    lemma_skips(w, m, 0, head, 16);
}

/// The entry point of a whole deployer module ends the execution with exactly the runtime
/// code, once the initializer and the constructor have returned. Where its own code is
/// shorter than `CODE_SIZE`, it traps.
pub proof fn deployer_module_returns_runtime<'a>(
    w: World<'a>,
    m: Machine,
    contract: &'a Contract,
    size: int,
)
    requires
        m.status == Status::Jumped(18),
        w.code.len() < 0x1_0000_0000,
        others_go_on(w),
        w.globals.len() > 0,
        size == w.globals[0].len(),
        size < 0x1_0000_0000,
    ensures
        run(w, m, 0, code::deployer(contract, size)).status == if w.code.len()
            < code::CODE_SIZE {
            Status::Trapped
        } else {
            Status::Finished(w.globals[0])
        },
{
    let head = code::declare_externals::<'a>(0) + seq![Step::EmitFunctions];
    let constructors = code::own_constructors(contract);
    let dispatch = code::deployer_dispatch(16, contract, constructors, 0, size);
    let tail: Seq<Step<'a>> = seq![Step::Internalize];
    lemma_module_head(w, m);
    lemma_run_both(w, m, 0, head + dispatch, tail);
    lemma_run_both(w, m, 0, head, dispatch);
    deployer_returns_runtime(w, m, 16, contract, constructors, 0, size);
    let after = run(w, m, 16, dispatch);
    let next = (head + dispatch).len() as int;
    lemma_none(w, after, next, tail);
    lemma_ended(w, after, next, tail, 0, 1);
}

/// The entry point of a whole runtime module does what `emit_function_dispatch` emits.
pub proof fn runtime_module_dispatches<'a>(w: World<'a>, m: Machine, contract: &'a Contract)
    requires
        m.status == Status::Jumped(17),
    ensures
        ({
            let dispatch = code::emit_function_dispatch(
                16,
                contract,
                code::own_functions(contract),
            );
            let after = run(w, m, 16, dispatch);
            ended(after) ==> run(w, m, 0, code::runtime(contract)) == after
        }),
{
    let head = code::declare_externals::<'a>(0) + seq![Step::EmitFunctions];
    let dispatch = code::emit_function_dispatch(16, contract, code::own_functions(contract));
    let tail: Seq<Step<'a>> = seq![Step::Internalize, Step::Wasm { linking: true }];
    lemma_module_head(w, m);
    lemma_run_both(w, m, 0, head + dispatch, tail);
    lemma_run_both(w, m, 0, head, dispatch);
    let after = run(w, m, 16, dispatch);
    let next = (head + dispatch).len() as int;
    lemma_none(w, after, next, tail);
    if ended(after) {
        lemma_ended(w, after, next, tail, 0, 2);
    }
}

/// The step of `emit_function_dispatch` that dispatches on the function selector.
pub open spec fn dispatch_step<'a>(base: int, contract: &'a Contract) -> Step<'a> {
    Step::Dispatch {
        functions: &contract.functions,
        emitted: contract.functions@.len() as usize,
        data: pointer_at(base + 7, 32),
        length: int_at(base + 4, 32),
        function: FunctionRef::Added(base as usize),
        fallback: block_at(base + 8),
    }
}

/// The step of `emit_function_dispatch` that calls function `f`, the fallback function.
pub open spec fn fallback_step<'a>(f: usize) -> Step<'a> {
    Step::Call { callee: FunctionRef::Function(f), args: List::Zero, name: "" }
}

/// The runtime dispatches over the contract's functions, on exactly the call data. Where a
/// function is dispatched to, the execution ends as that function ends it. Where none is,
/// the fallback function runs and the runtime returns; without one it traps.
#[verifier::rlimit(40)]
pub proof fn runtime_dispatches<'a>(w: World<'a>, m: Machine, base: int, contract: &'a Contract)
    requires
        m.status == Status::Jumped(base + 1),
        numbered(base, 13),
        contract.wf(),
    ensures
        ({
            let code = code::emit_function_dispatch(
                base,
                contract,
                code::own_functions(contract),
            );
            let handed = run_to(w, m, base, code, 9);
            let chosen = (w.other)(handed, base + 9, dispatch_step(base, contract));
            let after = run(w, m, base, code);
            &&& handed.status is Running
            &&& handed.int_of(int_at(base + 4, 32)) == w.call_data.len()
            &&& handed.bytes(
                handed.address_of(pointer_at(base + 7, 32)),
                w.call_data.len() as int,
            ) == w.call_data
            &&& handed.storage == m.storage
            &&& ended(chosen) ==> after == chosen
            &&& chosen.status == Status::Jumped(base + 8) ==> {
                let landed = Machine { status: Status::Running, ..chosen };
                match contract.fallback {
                    Some(f) => {
                        let called = (w.other)(landed, base + 11, fallback_step(f));
                        &&& called.status is Running ==> after == (Machine {
                            status: Status::Returned,
                            ..called
                        })
                        &&& ended(called) ==> after == called
                    },
                    None => after == (Machine { status: Status::Trapped, ..chosen }),
                }
            }
        }),
{
    let main = FunctionRef::Added(base as usize);
    let functions = code::own_functions(contract);
    let s = code::emit_function_dispatch(base, contract, functions);
    let start: Seq<Step<'a>> = seq![code::add_main()];
    let prelude = code::runtime_prelude(base + 1, main);
    let rest = seq![
        Step::AppendBlock { function: main, name: "fallback" },
        dispatch_step(base, contract),
        Step::PositionAtEnd { block: block_at(base + 8) },
    ] + code::fallback(contract, functions);
    assert(s =~= (start + prelude) + rest);
    let n = s.len() as int;
    // up to the dispatch
    lemma_run_both(w, m, base, start, prelude);
    lemma_none(w, m, base, start);
    lemma_pass(w, m, base, start, 0);
    runtime_prelude_copies_call_data(w, m, base + 1, main);
    let copied = run(w, m, base + 1, prelude);
    lemma_run_start(w, m, base, start + prelude, rest, 8);
    assert(run_to(w, m, base, s, 8) == copied);
    lemma_next(w, m, base, s, 8);
    let handed = run_to(w, m, base, s, 9);
    assert(handed == copied) by {
        reveal(execute);
    }
    // the dispatch
    lemma_next(w, m, base, s, 9);
    let chosen = (w.other)(handed, base + 9, dispatch_step(base, contract));
    assert(run_to(w, m, base, s, 10) == chosen) by {
        assert(s[9] == dispatch_step(base, contract));
        reveal(execute);
    }
    if ended(chosen) {
        lemma_ended(w, m, base, s, 10, n);
    }
    if chosen.status == Status::Jumped(base + 8) {
        lemma_land(w, m, base, s, 10);
        let landed = Machine { status: Status::Running, ..chosen };
        assert(run_to(w, m, base, s, 11) == landed);
        lemma_next(w, m, base, s, 11);
        match contract.fallback {
            Some(f) => {
                let called = (w.other)(landed, base + 11, fallback_step(f));
                assert(s[11] == fallback_step::<'a>(f));
                assert(run_to(w, m, base, s, 12) == called) by {
                    reveal(execute);
                }
                if called.status is Running {
                    lemma_next(w, m, base, s, 12);
                    assert(run_to(w, m, base, s, 13) == (Machine {
                        status: Status::Returned,
                        ..called
                    })) by {
                        assert(s[12] == (Step::Return { value: i32_const(0) }));
                        reveal(execute);
                    }
                } else if ended(called) {
                    lemma_ended(w, m, base, s, 12, n);
                }
            },
            None => {
                assert(run_to(w, m, base, s, 12) == (Machine {
                    status: Status::Trapped,
                    ..chosen
                })) by {
                    assert(s[11] == Step::Unreachable);
                    reveal(execute);
                }
            },
        }
    }
}

/// A creation sends the `length` bytes at `input` with a balance of zero. Where the host
/// reports success, the execution goes on and the new contract's address is at `address`;
/// otherwise it is undone, with no data.
#[verifier::rlimit(40)]
pub proof fn creation_succeeds_or_reverts<'a>(
    w: World<'a>,
    m: Machine,
    base: int,
    function: FunctionRef,
    global: int,
    address: PointerOperand,
    input: PointerOperand,
    length: IntOperand,
)
    requires
        m.status is Running,
        numbered(base, 10),
        0 <= global <= usize::MAX,
        global < w.globals.len(),
        w.globals[global] == code::balance(),
        pointer_before(address, base),
        pointer_before(input, base),
        int_before(length, base),
        apart((w.address)(base), 16, m.address_of(input), m.int_of(length)),
        (w.reply)(base + 1).address.len() == 20,
    ensures
        ({
            let after = run(
                w,
                m,
                base,
                code::finish_creation(base, function, global, address, input, length),
            );
            let reply = (w.reply)(base + 1);
            &&& after.messages == m.messages.push(
                Message {
                    gas: 0,
                    address: seq![],
                    balance: zeros(16),
                    input: m.bytes(m.address_of(input), m.int_of(length)),
                },
            )
            &&& after.status == if reply.status == 0 {
                Status::Running
            } else {
                Status::Reverted(seq![])
            }
            &&& reply.status == 0 ==> after.bytes(m.address_of(address), 20) == reply.address
        }),
{
    broadcast use lemma_i32;

    let s = code::finish_creation(base, function, global, address, input, length);
    let reply = (w.reply)(base + 1);
    let place = (w.address)(base);
    let m1 = m.writing(place, code::balance()).yielding(base, place);
    lemma_none(w, m, base, s);
    lemma_global(w, m, base, s, 0);
    lemma_call(w, m, base, s, 1);
    assert(m1.bytes(m.address_of(input), m.int_of(length)) =~= m.bytes(
        m.address_of(input),
        m.int_of(length),
    ));
    assert(m1.bytes(place, 16) =~= zeros(16));
    let m2 = run_to(w, m, base, s, 2);
    assert({
        &&& m2.status is Running
        &&& m2.int_of(int_at(base + 1, 32)) == reply.status
        &&& m2.messages == m.messages.push(
            Message {
                gas: 0,
                address: seq![],
                balance: zeros(16),
                input: m.bytes(m.address_of(input), m.int_of(length)),
            },
        )
        &&& reply.status == 0 ==> m2.bytes(m.address_of(address), 20) =~= reply.address
    }) by {
        reveal(call);
    }
    let success: int = if reply.status == 0 {
        1
    } else {
        0
    };
    let m3 = m2.yielding(base + 2, success);
    lemma_next(w, m, base, s, 2);
    assert(run_to(w, m, base, s, 3) == m3) by {
        reveal(execute);
    }
    lemma_next(w, m, base, s, 3);
    assert(run_to(w, m, base, s, 4) == m3) by {
        reveal(execute);
    }
    lemma_next(w, m, base, s, 4);
    assert(run_to(w, m, base, s, 5) == m3) by {
        reveal(execute);
    }
    lemma_next(w, m, base, s, 5);
    let target = if reply.status == 0 {
        base + 3
    } else {
        base + 4
    };
    let m6 = Machine { status: Status::Jumped(target), ..m3 };
    assert(run_to(w, m, base, s, 6) == m6) by {
        reveal(execute);
    }
    if reply.status == 0 {
        lemma_pass(w, m, base, s, 6);
        lemma_pass(w, m, base, s, 7);
        lemma_pass(w, m, base, s, 8);
        lemma_land(w, m, base, s, 9);
        assert(run(w, m, base, s).bytes(m.address_of(address), 20) =~= reply.address);
    } else {
        lemma_land(w, m, base, s, 6);
        lemma_call(w, m, base, s, 7);
        let m7 = run_to(w, m, base, s, 7);
        assert(m7.bytes(0, 0) =~= seq![]);
        assert(run_to(w, m, base, s, 8).status == Status::Reverted(seq![])) by {
            reveal(call);
        }
        assert(run_to(w, m, base, s, 8).messages == m7.messages) by {
            reveal(call);
        }
        lemma_ended(w, m, base, s, 8, 10);
    }
}

/// The conditions for a creation: its input is allocated apart from the code and from the
/// balance, and the arguments are written where they belong.
pub open spec fn creates<'a>(
    w: World<'a>,
    m: Machine,
    base: int,
    function: FunctionRef,
    global: int,
    size: int,
    address: PointerOperand,
    args: Seq<Operand>,
    spec: Seq<Parameter>,
) -> bool {
    let e = Encoding {
        base: base + 1,
        selector: None,
        constant: Some((pointer_at(base, 8), size as u64)),
        load: false,
        function,
        args,
        spec,
    };
    let start = start_of(w, e);
    let last = base + 1 + e.code::<'a>().len();
    &&& m.status is Running
    &&& numbered(base, 3 * spec.len() as int + 23)
    &&& 0 <= global < usize::MAX
    &&& global + 1 < w.globals.len()
    &&& w.globals[global].len() == size
    &&& size <= u64::MAX
    &&& w.globals[global + 1] == code::balance()
    &&& pointer_before(address, base)
    &&& sized(w, e)
    &&& placed(w, m.yielding(base, (w.address)(base)), e)
    &&& encodes_within(w, start + size, start + encoding_size(w, e))
    &&& apart((w.address)(last), 16, start, encoding_size(w, e))
    &&& (w.reply)(last + 1).address.len() == 20
}

/// The machine with the `global`-th global, the code of a new contract, in its memory.
pub open spec fn with_code<'a>(w: World<'a>, m: Machine, base: int, global: int) -> Machine {
    run(w, m, base, seq![Step::GlobalString { global: global as usize }])
}

/// `create_contract` sends one message: the code of the new contract, followed by its
/// constructor's arguments, with a balance of zero. Where the host reports success, the
/// execution goes on and the new contract's address is at `address`; otherwise it is undone,
/// with no data.
#[verifier::rlimit(40)]
pub proof fn create_contract_sends_code<'a>(
    w: World<'a>,
    m: Machine,
    base: int,
    function: FunctionRef,
    global: int,
    size: int,
    address: PointerOperand,
    args: Seq<Operand>,
    spec: Seq<Parameter>,
)
    requires
        creates(w, m, base, function, global, size, address, args, spec),
    ensures
        ({
            let e = code::creation_input(base, function, size, args, spec);
            let after = run(
                w,
                m,
                base,
                code::create_contract(base, function, global, size, address, args, spec),
            );
            let reply = (w.reply)(base + 2 + e.code::<'a>().len());
            let message = after.messages.last();
            &&& after.messages == m.messages.push(message)
            &&& message.gas == 0
            &&& message.address == Seq::<u8>::empty()
            &&& message.balance == zeros(16)
            &&& message.input == encoded(w, with_code(w, m, base, global), e)
            &&& message.input.len() == encoding_size(w, e)
            &&& message.input.take(size) == w.globals[global]
            &&& spec.len() == 0 ==> message.input == w.globals[global]
            &&& after.status == if reply.status == 0 {
                Status::Running
            } else {
                Status::Reverted(seq![])
            }
            &&& reply.status == 0 ==> after.bytes(m.address_of(address), 20) == reply.address
        }),
{
    let e = code::creation_input(base, function, size, args, spec);
    let start = start_of(w, e);
    let total = encoding_size(w, e);
    let n = spec.len() as int;
    let wasm = w.globals[global];
    let first: Seq<Step<'a>> = seq![Step::GlobalString { global: global as usize }];
    let last = base + 1 + e.code::<'a>().len();
    let finish = code::finish_creation::<'a>(
        last,
        function,
        global + 1,
        address,
        e.start(),
        e.length(),
    );
    lemma_run_both(w, m, base, first + e.code(), finish);
    lemma_run_both(w, m, base, first, e.code());
    lemma_with_code(w, m, base, function, global, size, args, spec);
    let m1 = with_code(w, m, base, global);
    encode_starts_with_prefix(w, m1, e);
    let m2 = run(w, m1, base + 1, e.code());
    let input = m2.bytes(start, total);
    assert(input == encoded(w, m1, e));
    assert(input.take(size) == wasm);
    if n == 0 {
        assert(input =~= input.take(size));
    }
    creation_succeeds_or_reverts(
        w,
        m2,
        last,
        function,
        global + 1,
        address,
        e.start(),
        e.length(),
    );
    let code = code::create_contract::<'a>(base, function, global, size, address, args, spec);
    assert(code == first + e.code() + finish);
    let after = run(w, m, base, code);
    assert(after == run(w, m2, last, finish));
    assert(m2.address_of(address) == m.address_of(address));
    assert(after.messages.last().input == input);
    assert(after.messages =~= m.messages.push(after.messages.last()));
    assert(after.messages.last().address =~= Seq::<u8>::empty());
}

/// What comes before the constructor's arguments is the code.
proof fn lemma_with_code<'a>(
    w: World<'a>,
    m: Machine,
    base: int,
    function: FunctionRef,
    global: int,
    size: int,
    args: Seq<Operand>,
    spec: Seq<Parameter>,
)
    requires
        m.status is Running,
        numbered(base, 1),
        0 <= global < usize::MAX,
        global < w.globals.len(),
        w.globals[global].len() == size,
        size <= u64::MAX,
    ensures
        ({
            let e = code::creation_input(base, function, size, args, spec);
            let place = (w.address)(base);
            let with = with_code(w, m, base, global);
            &&& with == m.writing(place, w.globals[global]).yielding(base, place)
            &&& prefix_bytes(with, e) == w.globals[global]
        }),
{
    let e = code::creation_input(base, function, size, args, spec);
    let first: Seq<Step<'a>> = seq![Step::GlobalString { global: global as usize }];
    let place = (w.address)(base);
    let with = m.writing(place, w.globals[global]).yielding(base, place);
    lemma_none(w, m, base, first);
    lemma_global(w, m, base, first, 0);
    assert(run(w, m, base, first) == with);
    assert(with.address_of(pointer_at(base, 8)) == place);
    assert(with.bytes(place, size) =~= w.globals[global]);
    assert(prefix_bytes(with, e) =~= w.globals[global]);
}

/// The message of `create_contract` is exactly the code of the new contract and the encoded
/// arguments of its constructor.
pub proof fn create_contract_sends_arguments<'a>(
    w: World<'a>,
    m: Machine,
    base: int,
    function: FunctionRef,
    global: int,
    size: int,
    address: PointerOperand,
    args: Seq<Operand>,
    spec: Seq<Parameter>,
    encoder: Encoder,
)
    requires
        creates(w, m, base, function, global, size, address, args, spec),
        ({
            let e = code::creation_input(base, function, size, args, spec);
            &&& arguments_before(e)
            &&& encodes_as(w, encoder, arguments_at(w, e), all_arguments_size(w, e))
        }),
    ensures
        ({
            let e = code::creation_input(base, function, size, args, spec);
            let with = with_code(w, m, base, global);
            let after = run(
                w,
                m,
                base,
                code::create_contract(base, function, global, size, address, args, spec),
            );
            after.messages.last().input == w.globals[global] + encode_all(
                encoder,
                false,
                spec,
                argument_values(with, e),
                blank(w, with, e),
            )
        }),
{
    let e = code::creation_input(base, function, size, args, spec);
    create_contract_sends_code(w, m, base, function, global, size, address, args, spec);
    lemma_with_code(w, m, base, function, global, size, args, spec);
    encoding_is_prefix_and_arguments(w, with_code(w, m, base, global), e, encoder);
}

/// How a deployment goes, from the machine `ready`, which has copied the constructor's
/// arguments, to the machine `after`. The initializer is called. Then, where the contract has
/// a constructor, the bytes that follow the deployed code are decoded into a value for each
/// parameter of the first constructor, and `constructor` is called with these values, once.
/// Then the execution ends with `runtime`. Where one of the calls ends the execution, nothing
/// after it runs.
pub open spec fn deploys<'a>(
    w: World<'a>,
    m: Machine,
    base: int,
    contract: &'a Contract,
    constructor: FunctionRef,
    runtime: Seq<u8>,
    ready: Machine,
    after: Machine,
) -> bool {
    let initialized = (w.other)(
        ready,
        base + 10,
        Step::Call {
            callee: FunctionRef::Initializer(base as usize),
            args: List::Zero,
            name: "",
        },
    );
    let decoded = (w.other)(
        initialized,
        base + 11,
        Step::Decode {
            function: FunctionRef::Added((base + 1) as usize),
            data: pointer_at(base + 9, 32),
            length: int_at(base + 6, 32),
            parameters: &contract.constructors@[0].params,
        },
    );
    let called = (w.other)(
        decoded,
        base + 12,
        Step::CallDecoded { callee: constructor, decode: (base + 11) as usize },
    );
    let constructed = if contract.constructors@.len() == 0 {
        initialized
    } else if decoded.status is Running {
        called
    } else {
        decoded
    };
    &&& ready.status is Running
    &&& ready.int_of(int_at(base + 6, 32)) == w.code.len() - 0x4000
    &&& ready.bytes(
        ready.address_of(pointer_at(base + 9, 32)),
        w.code.len() - 0x4000,
    ) == w.code.skip(0x4000)
    &&& ready.storage == m.storage
    &&& ready.messages == m.messages
    &&& ready.printed == m.printed
    &&& ended(initialized) ==> after == initialized
    &&& initialized.status is Running ==> {
        &&& ended(constructed) ==> after == constructed
        &&& constructed.status is Running ==> {
            &&& after.status == Status::Finished(runtime)
            &&& after.storage == constructed.storage
            &&& after.messages == constructed.messages
            &&& after.printed == constructed.printed
        }
    }
}

/// The deployer calls the initializer and then the contract's first constructor, where there
/// is one, with the arguments that follow the deployed code, and returns the runtime code.
#[verifier::rlimit(60)]
pub proof fn deployer_runs_constructor<'a>(
    w: World<'a>,
    m: Machine,
    base: int,
    contract: &'a Contract,
    constructors: Seq<FunctionRef>,
    global: int,
    size: int,
)
    requires
        m.status == Status::Jumped(base + 2),
        numbered(base, 16),
        0x4000 <= w.code.len() < 0x1_0000_0000,
        0 <= global <= usize::MAX,
        global < w.globals.len(),
        size == w.globals[global].len(),
        size < 0x1_0000_0000,
    ensures
        deploys(
            w,
            m,
            base,
            contract,
            constructors[0],
            w.globals[global],
            run_to(
                w,
                m,
                base,
                code::deployer_dispatch(base, contract, constructors, global, size),
                10,
            ),
            run(
                w,
                m,
                base,
                code::deployer_dispatch(base, contract, constructors, global, size),
            ),
        ),
{
    let main = FunctionRef::Added((base + 1) as usize);
    let s = code::deployer_dispatch(base, contract, constructors, global, size);
    let n = s.len() as int;
    let start: Seq<Step<'a>> = seq![Step::EmitInitializer, code::add_main()];
    let prelude = code::deployer_prelude(base + 2, main);
    let rest = s.skip(10);
    assert(s =~= (start + prelude) + rest);
    lemma_run_both(w, m, base, start, prelude);
    lemma_none(w, m, base, start);
    lemma_pass(w, m, base, start, 0);
    lemma_pass(w, m, base, start, 1);
    deployer_prelude_copies_arguments(w, m, base + 2, main);
    lemma_run_start(w, m, base, start + prelude, rest, 10);
    let ready = run_to(w, m, base, s, 10);
    assert(ready == run(w, m, base + 2, prelude));
    lemma_other(w, m, base, s, 10);
    let m1 = run_to(w, m, base, s, 11);
    if ended(m1) {
        lemma_ended(w, m, base, s, 11, n);
    } else if m1.status is Running {
        let last = n - 3;
        if contract.constructors@.len() > 0 {
            lemma_other(w, m, base, s, 11);
            let m2 = run_to(w, m, base, s, 12);
            if ended(m2) {
                lemma_ended(w, m, base, s, 12, n);
            } else if m2.status is Running {
                lemma_other(w, m, base, s, 12);
                let m3 = run_to(w, m, base, s, 13);
                if ended(m3) {
                    lemma_ended(w, m, base, s, 13, n);
                }
            }
        }
        let constructed = run_to(w, m, base, s, last);
        if constructed.status is Running {
            let finish = s.skip(last);
            assert(s =~= s.take(last) + finish);
            lemma_run_both(w, m, base, s.take(last), finish);
            lemma_run_start(w, m, base, s.take(last), finish, last);
            assert(finish =~= finishing(base + last, global, size));
            lemma_finish_global(w, constructed, base + last, global, size);
        }
    }
}

/// The entry point of a whole deployer module calls the initializer and then the contract's
/// constructor number zero, where there is one, with the arguments that follow the deployed
/// code, and returns the runtime code.
pub proof fn deployer_module_runs_constructor<'a>(
    w: World<'a>,
    m: Machine,
    contract: &'a Contract,
    size: int,
)
    requires
        m.status == Status::Jumped(18),
        0x4000 <= w.code.len() < 0x1_0000_0000,
        w.globals.len() > 0,
        size == w.globals[0].len(),
        size < 0x1_0000_0000,
    ensures
        ({
            let module = code::deployer(contract, size);
            exists|end: int|
                26 <= end <= module.len() && deploys(
                    w,
                    m,
                    16,
                    contract,
                    FunctionRef::Constructor(0),
                    w.globals[0],
                    run_to(w, m, 0, module, 26),
                    #[trigger] run_to(w, m, 0, module, end),
                ) && (ended(run_to(w, m, 0, module, end)) ==> run(w, m, 0, module) == run_to(
                    w,
                    m,
                    0,
                    module,
                    end,
                ))
        }),
{
    let module = code::deployer(contract, size);
    let head = code::declare_externals::<'a>(0) + seq![Step::EmitFunctions];
    let constructors = code::own_constructors(contract);
    let dispatch = code::deployer_dispatch(16, contract, constructors, 0, size);
    let tail: Seq<Step<'a>> = seq![Step::Internalize];
    let end = (head + dispatch).len() as int;
    lemma_module_head(w, m);
    deployer_runs_constructor(w, m, 16, contract, constructors, 0, size);
    lemma_run_both(w, m, 0, head, dispatch);
    lemma_run_start(w, m, 0, head + dispatch, tail, end);
    assert(run_to(w, m, 0, module, end) == run(w, m, 16, dispatch));
    assert(dispatch =~= dispatch.take(10) + dispatch.skip(10));
    lemma_run_start(w, m, 16, dispatch.take(10), dispatch.skip(10), 10);
    lemma_run_both(w, m, 0, head, dispatch.take(10));
    assert(module =~= (head + dispatch.take(10)) + (dispatch.skip(10) + tail));
    lemma_run_start(w, m, 0, head + dispatch.take(10), dispatch.skip(10) + tail, 26);
    assert(run_to(w, m, 0, module, 26) == run_to(w, m, 16, dispatch, 10));
    if ended(run_to(w, m, 0, module, end)) {
        lemma_ended(w, m, 0, module, end, module.len() as int);
    }
}

/// The message that creates a contract from its code is the code, followed by the arguments,
/// encoded as the parameters of the chosen constructor, one for each. It is the code alone
/// for a contract without a constructor.
pub proof fn creation_encodes_constructor_arguments<'a>(
    w: World<'a>,
    m: Machine,
    base: int,
    function: FunctionRef,
    global: int,
    size: int,
    address: PointerOperand,
    args: Seq<Operand>,
    created: &Contract,
    constructor_no: int,
    encoder: Encoder,
)
    requires
        created.constructors@.len() > 0 ==> 0 <= constructor_no < created.constructors@.len(),
        ({
            let spec = if created.constructors@.len() == 0 {
                Seq::<Parameter>::empty()
            } else {
                created.constructors@[constructor_no].params@
            };
            let e = Encoding {
                base: base + 1,
                selector: None,
                constant: Some((pointer_at(base, 8), size as u64)),
                load: false,
                function,
                args,
                spec,
            };
            &&& creates(w, m, base, function, global, size, address, args, spec)
            &&& arguments_before(e)
            &&& encodes_as(w, encoder, arguments_at(w, e), all_arguments_size(w, e))
        }),
    ensures
        ({
            let after = run(
                w,
                m,
                base,
                code::create_contract(
                    base,
                    function,
                    global,
                    size,
                    address,
                    args,
                    code::constructor_params(created, constructor_no),
                ),
            );
            let input = after.messages.last().input;
            &&& after.messages.len() == m.messages.len() + 1
            &&& created.constructors@.len() == 0 ==> input == w.globals[global]
            &&& created.constructors@.len() > 0 ==> {
                let spec = created.constructors@[constructor_no].params@;
                let e = Encoding {
                    base: base + 1,
                    selector: None,
                    constant: Some((pointer_at(base, 8), size as u64)),
                    load: false,
                    function,
                    args,
                    spec,
                };
                let with = with_code(w, m, base, global);
                &&& input == w.globals[global] + encode_all(
                    encoder,
                    false,
                    spec,
                    Seq::new(spec.len(), |i: int| with.value_of(args[i])),
                    blank(w, with, e),
                )
                &&& input.len() == size + heads(spec) + tails(w, e, spec.len() as int)
            }
        }),
{
    let spec = code::constructor_params(created, constructor_no);
    let e = code::creation_input(base, function, size, args, spec);
    create_contract_sends_code(w, m, base, function, global, size, address, args, spec);
    create_contract_sends_arguments(
        w,
        m,
        base,
        function,
        global,
        size,
        address,
        args,
        spec,
        encoder,
    );
    let with = with_code(w, m, base, global);
    assert(argument_values(with, e) =~= Seq::new(
        spec.len(),
        |i: int| with.value_of(args[i]),
    ));
    lemma_size_is_heads_and_tails(w, e, spec.len() as int);
}

/// The runtime dispatches over the contract's functions, on exactly the call data, whatever
/// functions have been emitted. What the dispatch decides stands: where it ends the
/// execution, nothing else runs. Where no function fits, the emitted function with the number
/// of the fallback function is called, without arguments, and the runtime returns; without a
/// fallback function it traps.
#[verifier::spinoff_prover]
#[verifier::rlimit(100)]
pub proof fn runtime_dispatches_over_functions<'a>(
    w: World<'a>,
    m: Machine,
    base: int,
    contract: &'a Contract,
    functions: Seq<FunctionRef>,
)
    requires
        m.status == Status::Jumped(base + 1),
        numbered(base, 13),
        contract.fallback matches Some(f) ==> f < functions.len() && !(
        functions[f as int] is Symbol),
        functions.len() <= usize::MAX,
    ensures
        ({
            let code = code::emit_function_dispatch(base, contract, functions);
            let handed = run_to(w, m, base, code, 9);
            let chosen = (w.other)(
                handed,
                base + 9,
                Step::Dispatch {
                    functions: &contract.functions,
                    emitted: functions.len() as usize,
                    data: pointer_at(base + 7, 32),
                    length: int_at(base + 4, 32),
                    function: FunctionRef::Added(base as usize),
                    fallback: block_at(base + 8),
                },
            );
            let after = run(w, m, base, code);
            &&& handed.status is Running
            &&& handed.int_of(int_at(base + 4, 32)) == w.call_data.len()
            &&& handed.bytes(
                handed.address_of(pointer_at(base + 7, 32)),
                w.call_data.len() as int,
            ) == w.call_data
            &&& handed.storage == m.storage
            &&& handed.messages == m.messages
            &&& handed.printed == m.printed
            &&& ended(chosen) ==> after == chosen
            &&& chosen.status == Status::Jumped(base + 8) ==> {
                let landed = Machine { status: Status::Running, ..chosen };
                match contract.fallback {
                    Some(f) => {
                        let called = (w.other)(
                            landed,
                            base + 11,
                            Step::Call { callee: functions[f as int], args: List::Zero, name: "" },
                        );
                        &&& called.status is Running ==> after == (Machine {
                            status: Status::Returned,
                            ..called
                        })
                        &&& ended(called) ==> after == called
                    },
                    None => after == (Machine { status: Status::Trapped, ..chosen }),
                }
            }
        }),
{
    let main = FunctionRef::Added(base as usize);
    let s = code::emit_function_dispatch(base, contract, functions);
    let n = s.len() as int;
    let start: Seq<Step<'a>> = seq![code::add_main()];
    let prelude = code::runtime_prelude(base + 1, main);
    let rest = s.skip(8);
    assert(s =~= (start + prelude) + rest);
    lemma_run_both(w, m, base, start, prelude);
    lemma_none(w, m, base, start);
    lemma_pass(w, m, base, start, 0);
    runtime_prelude_copies_call_data(w, m, base + 1, main);
    let copied = run(w, m, base + 1, prelude);
    lemma_run_start(w, m, base, start + prelude, rest, 8);
    lemma_append(w, m, base, s, 8);
    lemma_other(w, m, base, s, 9);
    let chosen = run_to(w, m, base, s, 10);
    if ended(chosen) {
        lemma_ended(w, m, base, s, 10, n);
    }
    if chosen.status == Status::Jumped(base + 8) {
        lemma_land(w, m, base, s, 10);
        match contract.fallback {
            Some(f) => {
                lemma_other(w, m, base, s, 11);
                let called = run_to(w, m, base, s, 12);
                if called.status is Running {
                    lemma_stop(w, m, base, s, 12);
                } else if ended(called) {
                    lemma_ended(w, m, base, s, 12, n);
                }
            },
            None => {
                lemma_stop(w, m, base, s, 11);
            },
        }
    }
}

} // verus!
