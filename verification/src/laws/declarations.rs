//! Declarations: the host functions are declared once and called as they are declared.
use crate::code::{self, Encoding};
use crate::contract::Contract as Session;
use crate::emitter::fresh;
use crate::ir::{
    FunctionRef, IntOperand, Kind, List, Operand, Pointee, PointerOperand, Step, Symbol,
    block_at, i32_const, int_at, pointer_at,
};
use crate::resolver::{Contract, Parameter};
use vstd::prelude::*;

verus! {

/// What a host function returns and takes; `None` for a function that is not the host's.
pub open spec fn signature(symbol: Symbol) -> Option<(Option<Kind>, List<Kind>)> {
    let p = Kind::Pointer(Pointee::Int(8));
    let i = Kind::Int(32);
    match symbol {
        Symbol::StorageStore => Some((None, List::Two(p, p))),
        Symbol::StorageLoad => Some((None, List::Two(p, p))),
        Symbol::GetCallDataSize => Some((Some(i), List::Zero)),
        Symbol::GetCodeSize => Some((Some(i), List::Zero)),
        Symbol::GetReturnDataSize => Some((Some(i), List::Zero)),
        Symbol::CallDataCopy => Some((None, List::Three(p, i, i))),
        Symbol::CodeCopy => Some((None, List::Three(p, i, i))),
        Symbol::ReturnDataCopy => Some((None, List::Three(p, i, i))),
        Symbol::PrintMem => Some((None, List::Two(p, i))),
        Symbol::Create => Some((Some(i), List::Four(p, p, i, p))),
        Symbol::Call => Some((Some(i), List::Five(Kind::Int(64), p, p, p, i))),
        Symbol::Finish => Some((None, List::Two(p, i))),
        Symbol::Revert => Some((None, List::Two(p, i))),
        _ => None,
    }
}

/// The step declares the host function.
pub open spec fn declares_host(step: Step, symbol: Symbol) -> bool {
    signature(symbol) matches Some((ret, params)) && step == (Step::AddFunction {
        symbol,
        ret,
        params,
        external: true,
    })
}

/// `declare_externals` declares every host function once, with its signature, and no other
/// function.
#[verifier::rlimit(40)]
pub proof fn host_functions_are_declared_once(symbol: Symbol, base: int, i: int)
    requires
        0 <= i < code::declare_externals(base).len(),
    ensures
        code::externals().contains(symbol) <==> signature(symbol) is Some,
        code::declare_externals(base)[i] matches Step::AddFunction { symbol: s, .. } ==> declares_host(
            code::declare_externals(base)[i],
            s,
        ),
        signature(symbol) is Some ==> exists|k: int|
            0 <= k < code::declare_externals(base).len() && declares_host(
                #[trigger] code::declare_externals(base)[k],
                symbol,
            ),
        forall|j: int|
            0 <= j < code::declare_externals(base).len() && declares_host(
                code::declare_externals(base)[i],
                symbol,
            ) && declares_host(#[trigger] code::declare_externals(base)[j], symbol) ==> i == j,
{
    let steps = code::declare_externals(base);
    let at: int = match symbol {
        Symbol::StorageStore => 0,
        Symbol::StorageLoad => 1,
        Symbol::GetCallDataSize => 2,
        Symbol::GetCodeSize => 3,
        Symbol::GetReturnDataSize => 4,
        Symbol::CallDataCopy => 5,
        Symbol::CodeCopy => 6,
        Symbol::ReturnDataCopy => 7,
        Symbol::PrintMem => 8,
        Symbol::Create => 9,
        Symbol::Call => 10,
        Symbol::Finish => 11,
        Symbol::Revert => 13,
        _ => 0,
    };
    if signature(symbol) is Some {
        assert(declares_host(steps[at], symbol));
        let place: int = if at == 13 {
            12
        } else {
            at
        };
        assert(code::externals()[place] == symbol);
    }
}

/// The declaration of a host function is marked as one that does not return exactly when
/// the function ends the execution. Whatever else has the function's name is not marked.
pub proof fn ends_do_not_return(base: int, i: int)
    requires
        0 <= i < code::declare_externals(base).len(),
        0 <= base,
        base + code::declare_externals(base).len() <= usize::MAX,
    ensures
        code::declare_externals(base)[i] matches Step::SetNoReturn { declaration } ==> {
            &&& i > 0
            &&& declaration == base + i - 1
            &&& declares_host(code::declare_externals(base)[i - 1], Symbol::Finish)
                || declares_host(code::declare_externals(base)[i - 1], Symbol::Revert)
        },
        (declares_host(code::declare_externals(base)[i], Symbol::Finish) || declares_host(
            code::declare_externals(base)[i],
            Symbol::Revert,
        )) ==> {
            &&& i + 1 < code::declare_externals(base).len()
            &&& code::declare_externals(base)[i + 1] == (Step::SetNoReturn {
                declaration: (base + i) as usize,
            })
        },
{
}

/// The values that a call of a host function yields have the kind that the function was
/// declared to return.
pub proof fn host_functions_yield_as_declared(symbol: Symbol)
    ensures
        signature(symbol) matches Some((ret, _)) ==> symbol.ret() == ret,
{
}

/// The arguments have the kinds of the parameters.
pub open spec fn fit_parameters(args: Seq<Operand>, params: Seq<Kind>) -> bool {
    &&& args.len() == params.len()
    &&& forall|i: int| 0 <= i < args.len() ==> (#[trigger] args[i]).kind() == params[i]
}

/// Every call of a host function has arguments of the kinds that the function was declared
/// with.
pub open spec fn called_as_declared(steps: Seq<Step>) -> bool {
    forall|k: int|
        0 <= k < steps.len() ==> (#[trigger] steps[k] matches Step::Call {
            callee: FunctionRef::Symbol(symbol),
            args,
            ..
        } ==> (signature(symbol) matches Some((_, params)) ==> fit_parameters(args@, params@)))
}

/// The pointer points to bytes.
pub open spec fn to_bytes(value: PointerOperand) -> bool {
    value.spec_pointee() == Pointee::Int(8)
}

/// The storage operations call the host as it was declared, whatever the slot and the
/// destination point to.
pub proof fn storage_calls_as_declared<'a>(
    base: int,
    slot: PointerOperand,
    dest: PointerOperand,
    width: u32,
)
    ensures
        called_as_declared(code::clear_storage::<'a>(base, slot)),
        called_as_declared(code::set_storage::<'a>(base, slot, dest, width)),
        called_as_declared(code::get_storage_int::<'a>(base, slot, width)),
{
}

/// The operations that end an execution, print, or send a message call the host as it was
/// declared, where the pointers that they are given point to bytes and the length has 32
/// bits.
pub proof fn messages_call_as_declared<'a>(
    base: int,
    data: PointerOperand,
    length: IntOperand,
    address: PointerOperand,
    function: FunctionRef,
    global: int,
)
    requires
        to_bytes(data),
        to_bytes(address),
        length.spec_width() == 32,
    ensures
        called_as_declared(code::return_empty_abi::<'a>()),
        called_as_declared(code::return_abi::<'a>(data, length)),
        called_as_declared(code::assert_failure::<'a>(data, length)),
        called_as_declared(code::print::<'a>(data, length)),
        called_as_declared(code::external_call::<'a>(base, data, length, address, global)),
        called_as_declared(code::return_data::<'a>(base)),
        called_as_declared(
            code::finish_creation::<'a>(base, function, global, address, data, length),
        ),
{
}

/// The preludes call the host as it was declared.
pub proof fn preludes_call_as_declared<'a>(base: int, function: FunctionRef)
    ensures
        called_as_declared(code::runtime_prelude::<'a>(base, function)),
        called_as_declared(code::deployer_prelude::<'a>(base, function)),
{
}

/// Steps one after the other call the host as declared where both do.
proof fn lemma_both_call_as_declared(first: Seq<Step>, second: Seq<Step>)
    requires
        called_as_declared(first),
        called_as_declared(second),
    ensures
        called_as_declared(first + second),
{
    let all = first + second;
    assert forall|k: int| 0 <= k < all.len() implies (#[trigger] all[k] matches Step::Call {
        callee: FunctionRef::Symbol(symbol),
        args,
        ..
    } ==> (signature(symbol) matches Some((_, params)) ==> fit_parameters(args@, params@))) by {
        if k < first.len() {
            assert(all[k] == first[k]);
        } else {
            assert(all[k] == second[k - first.len()]);
        }
    }
}

/// An encoding calls the host as it was declared.
pub proof fn encode_calls_as_declared<'a>(e: Encoding)
    ensures
        called_as_declared(e.code::<'a>()),
{
    let n = e.spec.len() as int;
    lemma_both_call_as_declared(e.add_arguments::<'a>(n), e.add_selector::<'a>());
    lemma_both_call_as_declared(
        e.add_arguments::<'a>(n) + e.add_selector::<'a>(),
        e.add_constant::<'a>(),
    );
    lemma_both_call_as_declared(e.allocate::<'a>(), e.write_selector::<'a>());
    lemma_both_call_as_declared(
        e.allocate::<'a>() + e.write_selector::<'a>(),
        e.write_constant::<'a>(),
    );
    lemma_both_call_as_declared(e.lengths::<'a>(), e.prefix::<'a>());
    lemma_both_call_as_declared(
        e.lengths::<'a>() + e.prefix::<'a>(),
        e.clear_arguments::<'a>(),
    );
    lemma_both_call_as_declared(e.head::<'a>(), e.write_arguments::<'a>(n));
}

/// `create_contract` calls the host as it was declared, where the address points to bytes.
pub proof fn create_contract_calls_as_declared<'a>(
    base: int,
    function: FunctionRef,
    global: int,
    size: int,
    address: PointerOperand,
    args: Seq<Operand>,
    spec: Seq<Parameter>,
)
    requires
        to_bytes(address),
    ensures
        called_as_declared(
            code::create_contract::<'a>(base, function, global, size, address, args, spec),
        ),
{
    let e = code::creation_input(base, function, size, args, spec);
    let first: Seq<Step<'a>> = seq![Step::GlobalString { global: global as usize }];
    let last = base + 1 + e.code::<'a>().len();
    encode_calls_as_declared(e);
    messages_call_as_declared(last, e.start(), e.length(), address, function, global + 1);
    lemma_both_call_as_declared(first, e.code::<'a>());
    lemma_both_call_as_declared(
        first + e.code::<'a>(),
        code::finish_creation::<'a>(
            last,
            function,
            global + 1,
            address,
            e.start(),
            e.length(),
        ),
    );
}

/// The runtime and the deployer module call the host as it was declared.
#[verifier::rlimit(40)]
pub proof fn modules_call_as_declared<'a>(contract: &'a Contract, size: int)
    requires
        contract.wf(),
    ensures
        called_as_declared(code::runtime(contract)),
        called_as_declared(code::deployer(contract, size)),
{
    let functions = code::own_functions(contract);
    let constructors = code::own_constructors(contract);
    let externals = code::declare_externals::<'a>(0);
    let emit: Seq<Step<'a>> = seq![Step::EmitFunctions];
    lemma_both_call_as_declared(externals, emit);
    // the runtime
    let main = FunctionRef::Added(16);
    let start: Seq<Step<'a>> = seq![code::add_main()];
    let prelude = code::runtime_prelude::<'a>(17, main);
    let dispatch: Seq<Step<'a>> = seq![
        Step::AppendBlock { function: main, name: "fallback" },
        Step::Dispatch {
            functions: &contract.functions,
            emitted: functions.len() as usize,
            data: pointer_at(23, 32),
            length: int_at(20, 32),
            function: main,
            fallback: block_at(24),
        },
        Step::PositionAtEnd { block: block_at(24) },
    ];
    preludes_call_as_declared(17, main);
    lemma_both_call_as_declared(start, prelude);
    lemma_both_call_as_declared(start + prelude, dispatch);
    lemma_both_call_as_declared(
        start + prelude + dispatch,
        code::fallback(contract, functions),
    );
    let entry = code::emit_function_dispatch(16, contract, functions);
    lemma_both_call_as_declared(externals + emit, entry);
    lemma_both_call_as_declared(
        externals + emit + entry,
        seq![Step::Internalize, Step::Wasm { linking: true }],
    );
    // the deployer
    let main = FunctionRef::Added(17);
    let start: Seq<Step<'a>> = seq![Step::EmitInitializer, code::add_main()];
    let prelude = code::deployer_prelude::<'a>(18, main);
    let initialize: Seq<Step<'a>> = seq![
        Step::Call { callee: FunctionRef::Initializer(16), args: List::Zero, name: "" },
    ];
    let constructor = code::construct(
        27,
        contract,
        constructors,
        main,
        pointer_at(25, 32),
        int_at(22, 32),
    );
    let end = 27 + constructor.len() as int;
    let finish: Seq<Step<'a>> = seq![
        Step::GlobalString { global: 0 },
        code::call(
            Symbol::Finish,
            List::Two(
                code::pointer_arg(pointer_at(end, 8)),
                code::int_arg(i32_const(size as u64)),
            ),
        ),
        Step::Unreachable,
    ];
    preludes_call_as_declared(18, main);
    lemma_both_call_as_declared(start, prelude);
    lemma_both_call_as_declared(start + prelude, initialize);
    lemma_both_call_as_declared(start + prelude + initialize, constructor);
    lemma_both_call_as_declared(start + prelude + initialize + constructor, finish);
    let entry = code::deployer_dispatch(16, contract, constructors, 0, size);
    lemma_both_call_as_declared(externals + emit, entry);
    lemma_both_call_as_declared(externals + emit + entry, seq![Step::Internalize]);
}

/// Steps that add no function after the first ones and one that adds `main`.
proof fn lemma_fresh<'a>(steps: Seq<Step<'a>>, at: int, taken: Set<Seq<char>>)
    requires
        16 <= at < steps.len(),
        forall|k: int|
            0 <= k < 15 ==> #[trigger] steps[k] == code::declare_externals::<'a>(0)[k],
        steps[at] == code::add_main::<'a>(),
        forall|k: int|
            15 <= k < steps.len() && k != at ==> !(#[trigger] steps[k] is AddFunction),
        forall|symbol: Symbol|
            signature(symbol) is Some || symbol is Main ==> !taken.contains(
                (#[trigger] symbol.spec_name())@,
            ),
    ensures
        fresh(steps, 0, steps.len() as int, taken),
{
    assert forall|k: int| 0 <= k < 15 implies (#[trigger] steps[k] matches Step::AddFunction {
        symbol,
        ..
    } ==> declares_host(steps[k], symbol)) by {
        host_functions_are_declared_once(Symbol::Main, 0, k);
    }
    assert forall|j: int, k: int| 0 <= j < k < steps.len() implies (
    #[trigger] steps[j] matches Step::AddFunction { symbol: a, .. } ==> (
    #[trigger] steps[k] matches Step::AddFunction { symbol: b, .. } ==> a != b)) by {
        if steps[j] is AddFunction && steps[k] is AddFunction && j < 15 && k < 15 {
            host_functions_are_declared_once(steps[j]->AddFunction_symbol, 0, j);
        }
    }
}

/// The functions that the runtime and the deployer module add get their names, where a new
/// module does not have these names already.
pub proof fn modules_add_fresh_functions<'a>(
    contract: &'a Contract,
    size: int,
    taken: Set<Seq<char>>,
)
    requires
        forall|symbol: Symbol|
            signature(symbol) is Some || symbol is Main ==> !taken.contains(
                (#[trigger] symbol.spec_name())@,
            ),
    ensures
        fresh(
            code::runtime(contract),
            0,
            code::runtime(contract).len() as int,
            taken,
        ),
        fresh(
            code::deployer(contract, size),
            0,
            code::deployer(contract, size).len() as int,
            taken,
        ),
{
    lemma_fresh(code::runtime(contract), 16, taken);
    lemma_fresh(code::deployer(contract, size), 17, taken);
}

/// The length of the symbol's name, its first and its fourth character.
spec fn outline(symbol: Symbol) -> (nat, char, char) {
    match symbol {
        Symbol::Main => (4, 'm', 'n'),
        Symbol::StorageStore => (12, 's', 'r'),
        Symbol::StorageLoad => (11, 's', 'r'),
        Symbol::GetCallDataSize => (15, 'g', 'C'),
        Symbol::GetCodeSize => (11, 'g', 'C'),
        Symbol::GetReturnDataSize => (17, 'g', 'R'),
        Symbol::CallDataCopy => (12, 'c', 'l'),
        Symbol::CodeCopy => (8, 'c', 'e'),
        Symbol::ReturnDataCopy => (14, 'r', 'u'),
        Symbol::PrintMem => (8, 'p', 'n'),
        Symbol::Create => (6, 'c', 'a'),
        Symbol::Call => (4, 'c', 'l'),
        Symbol::Finish => (6, 'f', 'i'),
        Symbol::Revert => (6, 'r', 'e'),
        Symbol::InitHeap => (11, '_', 'n'),
        Symbol::Malloc => (8, '_', 'a'),
        Symbol::Bzero8 => (8, '_', 'z'),
        Symbol::Memcpy => (8, '_', 'e'),
        Symbol::Sha3 => (4, 's', '3'),
    }
}

proof fn lemma_outline(symbol: Symbol)
    ensures
        outline(symbol) == (
            symbol.spec_name()@.len(),
            symbol.spec_name()@[0],
            symbol.spec_name()@[3],
        ),
{
    match symbol {
        Symbol::Main => {
            reveal_strlit("main");
        },
        Symbol::StorageStore => {
            reveal_strlit("storageStore");
        },
        Symbol::StorageLoad => {
            reveal_strlit("storageLoad");
        },
        Symbol::GetCallDataSize => {
            reveal_strlit("getCallDataSize");
        },
        Symbol::GetCodeSize => {
            reveal_strlit("getCodeSize");
        },
        Symbol::GetReturnDataSize => {
            reveal_strlit("getReturnDataSize");
        },
        Symbol::CallDataCopy => {
            reveal_strlit("callDataCopy");
        },
        Symbol::CodeCopy => {
            reveal_strlit("codeCopy");
        },
        Symbol::ReturnDataCopy => {
            reveal_strlit("returnDataCopy");
        },
        Symbol::PrintMem => {
            reveal_strlit("printMem");
        },
        Symbol::Create => {
            reveal_strlit("create");
        },
        Symbol::Call => {
            reveal_strlit("call");
        },
        Symbol::Finish => {
            reveal_strlit("finish");
        },
        Symbol::Revert => {
            reveal_strlit("revert");
        },
        Symbol::InitHeap => {
            reveal_strlit("__init_heap");
        },
        Symbol::Malloc => {
            reveal_strlit("__malloc");
        },
        Symbol::Bzero8 => {
            reveal_strlit("__bzero8");
        },
        Symbol::Memcpy => {
            reveal_strlit("__memcpy");
        },
        Symbol::Sha3 => {
            reveal_strlit("sha3");
        },
    }
}

/// No two symbols have the same name.
pub proof fn names_are_distinct(a: Symbol, b: Symbol)
    requires
        a.spec_name()@ == b.spec_name()@,
    ensures
        a == b,
{
    lemma_outline(a);
    lemma_outline(b);
}

/// The lists of the contract's emitted functions and constructors hold each of them at its
/// number, so a dispatch is over the functions of the list.
pub proof fn emitted_functions_are_listed<'a>(contract: Session<'a>)
    requires
        contract.wf(),
    ensures
        contract.functions@ == Seq::new(
            contract.functions@.len(),
            |i: int| FunctionRef::Function(i as usize),
        ),
        contract.constructors@ == Seq::new(
            contract.constructors@.len(),
            |i: int| FunctionRef::Constructor(i as usize),
        ),
{
    reveal(Session::wf);
}

/// The deployer exports every host function but `codeCopy`.
pub proof fn deployer_exports_host_functions(symbol: Symbol)
    requires
        signature(symbol) is Some,
        symbol != Symbol::CodeCopy,
    ensures
        code::deployer_exports().contains(symbol.spec_name()),
{
    let at: int = match symbol {
        Symbol::GetCallDataSize => 1,
        Symbol::CallDataCopy => 2,
        Symbol::StorageStore => 3,
        Symbol::StorageLoad => 4,
        Symbol::Finish => 5,
        Symbol::Revert => 6,
        Symbol::GetCodeSize => 8,
        Symbol::PrintMem => 9,
        Symbol::Call => 10,
        Symbol::Create => 11,
        Symbol::GetReturnDataSize => 12,
        _ => 13,
    };
    assert(code::deployer_exports()[at] == symbol.spec_name());
}

/// The entry point of a deployer module stays visible, and so does every host function but
/// `codeCopy`. No function of the runtime library does.
pub proof fn deployer_exports_entry_point(symbol: Symbol)
    ensures
        code::deployer_exports().contains(symbol.spec_name()) <==> symbol is Main || (signature(
            symbol,
        ) is Some && symbol != Symbol::CodeCopy),
{
    let exports = code::deployer_exports();
    let exported = seq![
        Symbol::Main,
        Symbol::GetCallDataSize,
        Symbol::CallDataCopy,
        Symbol::StorageStore,
        Symbol::StorageLoad,
        Symbol::Finish,
        Symbol::Revert,
        Symbol::CodeCopy,
        Symbol::GetCodeSize,
        Symbol::PrintMem,
        Symbol::Call,
        Symbol::Create,
        Symbol::GetReturnDataSize,
        Symbol::ReturnDataCopy,
    ];
    assert(exports[0] == Symbol::Main.spec_name());
    if signature(symbol) is Some && symbol != Symbol::CodeCopy {
        deployer_exports_host_functions(symbol);
    }
    if exports.contains(symbol.spec_name()) {
        let i = choose|i: int| 0 <= i < exports.len() && exports[i] == symbol.spec_name();
        if i == 7 {
            lemma_outline(symbol);
            reveal_strlit("copyCopy");
            assert("copyCopy"@[3] == 'y');
        } else {
            assert(exports[i] == exported[i].spec_name());
            names_are_distinct(symbol, exported[i]);
        }
    }
}

} // verus!
