//! Modules: what a runtime and a deployer module hold, and in which order it is emitted.
use crate::code;
use crate::ir::{BlockRef, FunctionRef, Kind, List, Pointee, Step, Symbol, valid_width};
use crate::laws::declarations::{
    declares_host, host_functions_are_declared_once, names_are_distinct, signature,
};
use crate::laws::shape::{belongs_to, calls, ends_block, name_of, returns_zero};
use crate::resolver::Contract;
use vstd::prelude::*;

verus! {

/// The step changes the module as a whole, or asks for work on it as a whole.
pub open spec fn is_for_module(step: Step) -> bool {
    match step {
        Step::AddFunction { .. } | Step::SetNoReturn { .. } | Step::EmitFunctions
        | Step::EmitInitializer | Step::Internalize | Step::Wasm { .. } | Step::Import { .. } => true,
        _ => false,
    }
}

/// The step adds the entry point: a function without parameters that returns nothing and is
/// not the host's.
pub open spec fn adds_entry_point(step: Step) -> bool {
    step == (Step::AddFunction {
        symbol: Symbol::Main,
        ret: None,
        params: List::Zero,
        external: false,
    })
}

/// The step goes on in the block that step number `step` appended.
pub open spec fn enters(step: Step, number: int) -> bool {
    step == (Step::PositionAtEnd { block: BlockRef { step: number as usize } })
}

/// The runtime's entry point is one function, which all of its blocks belong to. Its first
/// block sets up the heap, once and before anything is allocated, finds the size of the call
/// data, allocates and copies, each once, and then dispatches, once. The second block is for
/// call data that fits no function. Every block ends, and only zero is returned. Nothing is
/// asked for on the module as a whole.
pub proof fn runtime_entry_point_is_whole<'a>(
    base: int,
    contract: &'a Contract,
    functions: Seq<FunctionRef>,
    k: int,
    symbol: Symbol,
)
    requires
        0 <= k < code::emit_function_dispatch(base, contract, functions).len(),
        contract.fallback matches Some(f) ==> !(functions[f as int] is Symbol),
    ensures
        ({
            let s = code::emit_function_dispatch(base, contract, functions);
            let last = s.len() - 1;
            &&& s.len() == if contract.fallback is Some {
                13int
            } else {
                12int
            }
            &&& adds_entry_point(s[0])
            &&& is_for_module(s[k]) <==> k == 0
            &&& belongs_to(s[k], FunctionRef::Added(base as usize))
            &&& s[k] is AppendBlock <==> k == 1 || k == 8
            &&& s[k] is PositionAtEnd <==> k == 2 || k == 10
            &&& enters(s[2], base + 1)
            &&& enters(s[10], base + 8)
            &&& s[k] is Dispatch <==> k == 9
            &&& ends_block(s[k]) <==> k == 9 || k == last
            &&& s[last] is Return <==> contract.fallback is Some
            &&& returns_zero(s)
            &&& calls(s[k], symbol) <==> {
                ||| k == 3 && symbol is InitHeap
                ||| k == 4 && symbol is GetCallDataSize
                ||| k == 5 && symbol is Malloc
                ||| k == 6 && symbol is CallDataCopy
            }
        }),
{
}

/// The deployer's entry point is one function with one block. It sets up the heap, once and
/// before anything is allocated, finds the size of the code, allocates and copies, each once,
/// calls the initializer that it asks for, once, and the contract's first constructor exactly
/// where there is one, and ends the execution. Nothing else is asked for on the module as a
/// whole.
pub proof fn deployer_entry_point_is_whole<'a>(
    base: int,
    contract: &'a Contract,
    constructors: Seq<FunctionRef>,
    global: int,
    size: int,
    k: int,
    symbol: Symbol,
)
    requires
        0 <= base,
        base + 16 <= usize::MAX,
        0 <= k < code::deployer_dispatch(base, contract, constructors, global, size).len(),
    ensures
        ({
            let s = code::deployer_dispatch(base, contract, constructors, global, size);
            let n = s.len() as int;
            let constructed = contract.constructors@.len() > 0;
            &&& n == if constructed {
                16int
            } else {
                14int
            }
            &&& s[0] is EmitInitializer
            &&& adds_entry_point(s[1])
            &&& is_for_module(s[k]) <==> k < 2
            &&& belongs_to(s[k], FunctionRef::Added((base + 1) as usize))
            &&& s[k] is AppendBlock <==> k == 2
            &&& s[k] is PositionAtEnd <==> k == 3
            &&& enters(s[3], base + 2)
            &&& ends_block(s[k]) <==> k == n - 1
            &&& s[n - 1] is Unreachable
            &&& (s[k] matches Step::Call { callee, .. } && callee is Initializer) <==> k == 10
            &&& s[10] matches Step::Call { callee, args, .. } && {
                &&& callee == FunctionRef::Initializer(base as usize)
                &&& args is Zero
            }
            &&& s[k] is Decode <==> constructed && k == 11
            &&& s[k] is CallDecoded <==> constructed && k == 12
            &&& s[k] matches Step::Decode { parameters, .. } ==> *parameters
                == contract.constructors@[0].params
            &&& s[k] matches Step::CallDecoded { callee, decode } ==> {
                &&& callee == constructors[0]
                &&& decode == base + 11
            }
            &&& s[k] is GlobalString <==> k == n - 3
            &&& calls(s[k], symbol) <==> {
                ||| k == 4 && symbol is InitHeap
                ||| k == 5 && symbol is GetCodeSize
                ||| k == 7 && symbol is Malloc
                ||| k == 8 && symbol is CodeCopy
                ||| k == n - 2 && symbol is Finish
            }
        }),
{
}

/// A runtime module declares every host function, once, then asks for the contract's
/// functions, once, then holds its entry point, and ends with the requests to make every
/// function internal that is not exported and to compile it to wasm that is linked. Each of
/// these requests is there once, for every contract.
#[verifier::rlimit(40)]
pub proof fn runtime_module_is_complete<'a>(contract: &'a Contract, k: int, symbol: Symbol)
    requires
        0 <= k < code::runtime(contract).len(),
        contract.wf(),
    ensures
        ({
            let s = code::runtime(contract);
            let n = s.len() as int;
            &&& s[k] is EmitFunctions <==> k == 15
            &&& !(s[k] is EmitInitializer)
            &&& !(s[k] is Import)
            &&& s[k] is Internalize <==> k == n - 2
            &&& s[k] is Wasm <==> k == n - 1
            &&& s.last() == (Step::Wasm { linking: true })
            &&& adds_entry_point(s[k]) <==> k == 16
            &&& s[k] is AddFunction ==> adds_entry_point(s[k]) || k < 15
            &&& s[k] is SetNoReturn ==> k < 15
            &&& k < 15 ==> is_for_module(s[k])
            &&& signature(symbol) is Some ==> exists|j: int|
                0 <= j < 15 && declares_host(#[trigger] s[j], symbol)
            &&& signature(symbol) is None && !(symbol is Main) ==> !(
            s[k] matches Step::AddFunction { symbol: added, .. } && added == symbol)
            &&& calls(s[k], symbol) ==> 16 < k
            &&& calls(s[k], Symbol::InitHeap) <==> k == 19
            &&& s[k] is Dispatch <==> k == 25
            &&& 17 <= k < n - 2 ==> belongs_to(s[k], FunctionRef::Added(16))
        }),
{
    let head = code::declare_externals::<'a>(0) + seq![Step::EmitFunctions];
    let functions = code::own_functions(contract);
    let entry = code::emit_function_dispatch(16, contract, functions);
    let tail: Seq<Step<'a>> = seq![Step::Internalize, Step::Wasm { linking: true }];
    let s = code::runtime(contract);
    assert(s == head + entry + tail);
    lemma_declared(s, k, symbol);
    runtime_entry_point_is_whole(16, contract, functions, 0, symbol);
    if 16 <= k < 16 + entry.len() {
        assert(s[k] == entry[k - 16]);
        runtime_entry_point_is_whole(16, contract, functions, k - 16, symbol);
        runtime_entry_point_is_whole(16, contract, functions, k - 16, Symbol::InitHeap);
    } else if k >= 16 + entry.len() {
        assert(s[k] == tail[k - 16 - entry.len()]);
    }
}

/// The host functions are declared by the first steps.
proof fn lemma_declared<'a>(s: Seq<Step<'a>>, k: int, symbol: Symbol)
    requires
        s.len() >= 16,
        forall|j: int|
            0 <= j < 15 ==> #[trigger] s[j] == code::declare_externals::<'a>(0)[j],
        s[15] is EmitFunctions,
    ensures
        0 <= k < 15 ==> {
            &&& s[k] is AddFunction || s[k] is SetNoReturn
            &&& s[k] matches Step::AddFunction { symbol: added, .. } ==> declares_host(
                s[k],
                added,
            )
        },
        signature(symbol) is Some ==> exists|j: int|
            0 <= j < 15 && declares_host(#[trigger] s[j], symbol),
{
    let declared = code::declare_externals::<'a>(0);
    assert(declared.len() == 15);
    if 0 <= k < 15 {
        assert(s[k] == declared[k]);
        host_functions_are_declared_once(symbol, 0, k);
    }
    host_functions_are_declared_once(symbol, 0, 0);
    if signature(symbol) is Some {
        let j = choose|j: int|
            0 <= j < declared.len() && declares_host(#[trigger] declared[j], symbol);
        assert(s[j] == declared[j]);
    }
}

/// A deployer module declares every host function, once, then asks for the contract's
/// functions and for the initializer, each once, then holds its entry point, and ends with
/// the request to make every function internal that is not exported. Its compilation is left
/// to whoever asked for it.
#[verifier::rlimit(40)]
pub proof fn deployer_module_is_complete<'a>(
    contract: &'a Contract,
    size: int,
    k: int,
    symbol: Symbol,
)
    requires
        0 <= k < code::deployer(contract, size).len(),
    ensures
        ({
            let s = code::deployer(contract, size);
            let n = s.len() as int;
            &&& s[k] is EmitFunctions <==> k == 15
            &&& s[k] is EmitInitializer <==> k == 16
            &&& !(s[k] is Import)
            &&& s[k] is Internalize <==> k == n - 1
            &&& !(s[k] is Wasm)
            &&& adds_entry_point(s[k]) <==> k == 17
            &&& s[k] is AddFunction ==> adds_entry_point(s[k]) || k < 15
            &&& s[k] is SetNoReturn ==> k < 15
            &&& k < 15 ==> is_for_module(s[k])
            &&& signature(symbol) is Some ==> exists|j: int|
                0 <= j < 15 && declares_host(#[trigger] s[j], symbol)
            &&& signature(symbol) is None && !(symbol is Main) ==> !(
            s[k] matches Step::AddFunction { symbol: added, .. } && added == symbol)
            &&& calls(s[k], symbol) ==> 17 < k
            &&& calls(s[k], Symbol::InitHeap) <==> k == 20
            &&& s[k] is Decode <==> contract.constructors@.len() > 0 && k == 27
            &&& s[k] is CallDecoded <==> contract.constructors@.len() > 0 && k == 28
            &&& s[k] matches Step::CallDecoded { callee, .. } ==> callee
                == FunctionRef::Constructor(0)
            &&& s[k] matches Step::GlobalString { global } ==> global == 0
            &&& 18 <= k < n - 1 ==> belongs_to(s[k], FunctionRef::Added(17))
        }),
{
    let head = code::declare_externals::<'a>(0) + seq![Step::EmitFunctions];
    let constructors = code::own_constructors(contract);
    let entry = code::deployer_dispatch(16, contract, constructors, 0, size);
    let tail: Seq<Step<'a>> = seq![Step::Internalize];
    let s = code::deployer(contract, size);
    assert(s == head + entry + tail);
    lemma_declared(s, k, symbol);
    deployer_entry_point_is_whole(16, contract, constructors, 0, size, 0, symbol);
    if 16 <= k < 16 + entry.len() {
        assert(s[k] == entry[k - 16]);
        deployer_entry_point_is_whole(16, contract, constructors, 0, size, k - 16, symbol);
        deployer_entry_point_is_whole(
            16,
            contract,
            constructors,
            0,
            size,
            k - 16,
            Symbol::InitHeap,
        );
    } else if k >= 16 + entry.len() {
        assert(s[k] == tail[k - 16 - entry.len()]);
    }
}

/// Every function and every constructor of a contract is emitted, and each is known by its
/// number.
pub proof fn all_functions_are_emitted(contract: &Contract, i: int)
    ensures
        code::own_functions(contract).len() == contract.functions@.len(),
        code::own_constructors(contract).len() == contract.constructors@.len(),
        0 <= i < contract.functions@.len() ==> code::own_functions(contract)[i]
            == FunctionRef::Function(i as usize),
        0 <= i < contract.constructors@.len() ==> code::own_constructors(contract)[i]
            == FunctionRef::Constructor(i as usize),
{
}

/// Only the entry point of a runtime module stays visible.
pub proof fn runtime_exports_entry_point(symbol: Symbol)
    ensures
        code::runtime_exports().contains(symbol.spec_name()) ==> symbol is Main,
        code::runtime_exports().contains(Symbol::Main.spec_name()),
        code::runtime_exports().len() == 1,
{
    assert(code::runtime_exports()[0] == Symbol::Main.spec_name());
    if code::runtime_exports().contains(symbol.spec_name()) {
        names_are_distinct(symbol, Symbol::Main);
    }
}

/// The global with the code of a contract is named after the contract: `contract_`, the
/// contract's name, `_code`. Contracts with different names have different globals.
pub proof fn code_is_named_after_contract(one: &Contract, other: &Contract)
    ensures
        ({
            let name = code::code_name(one);
            let n = one.name@.len() as int;
            &&& name.len() == n + 14
            &&& name.take(9) == "contract_"@
            &&& name.subrange(9, 9 + n) == one.name@
            &&& name.skip(9 + n) == "_code"@
        }),
        code::code_name(one) == code::code_name(other) ==> one.name@ == other.name@,
{
    reveal_strlit("contract_");
    reveal_strlit("_code");
    let n = one.name@.len() as int;
    let k = other.name@.len() as int;
    assert(code::code_name(one).take(9) =~= "contract_"@);
    assert(code::code_name(one).subrange(9, 9 + n) =~= one.name@);
    assert(code::code_name(one).skip(9 + n) =~= "_code"@);
    assert(code::code_name(other).subrange(9, 9 + k) =~= other.name@);
}

/// The block for call data that fits no function is named after that, and what the entry
/// points call for its effect is not named.
pub proof fn entry_points_name_their_blocks<'a>(
    base: int,
    contract: &'a Contract,
    functions: Seq<FunctionRef>,
    global: int,
    size: int,
    k: int,
)
    ensures
        ({
            let s = code::emit_function_dispatch(base, contract, functions);
            8 <= k < s.len() ==> name_of(s[k]) == if k == 8 {
                "fallback"@
            } else {
                ""@
            }
        }),
        ({
            let s = code::deployer_dispatch(base, contract, functions, global, size);
            10 <= k < s.len() ==> name_of(s[k]) == ""@
        }),
{
}

/// Integers have from one bit to as many as LLVM can have, and what the runtime library
/// allocates is a pointer to bytes. No other function of the library yields a value.
pub proof fn library_yields_pointers(symbol: Symbol, width: u32)
    ensures
        valid_width(width) <==> 1 <= width <= 8388608,
        Symbol::Malloc.ret() == Some(Kind::Pointer(Pointee::Int(8))),
        signature(symbol) is None && !(symbol is Malloc) ==> symbol.ret() is None,
{
}

} // verus!
