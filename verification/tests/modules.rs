//! The runtime and the deployer module.
use ewasm_emit::contract::{Contract, OptimizationLevel};
use ewasm_emit::ethabiencoder::EthAbiEncoder;
use ewasm_emit::ewasm::EwasmTarget;
use ewasm_emit::ir::{
    BlockRef, FunctionRef, IntOperand, Kind, List, Operand, Pointee, PointerOperand, Register,
    Step, Symbol,
};
use ewasm_emit::resolver;

fn source(constructors: usize, functions: usize, fallback: Option<usize>) -> resolver::Contract {
    let function = |_| resolver::Function {
        params: vec![resolver::Parameter {
            ty: resolver::Type { index: 0, encoded_fixed_length: 32 },
        }],
    };
    resolver::Contract {
        name: "c".to_owned(),
        constructors: (0..constructors).map(function).collect(),
        functions: (0..functions).map(function).collect(),
        fallback,
    }
}

fn library() -> Vec<Symbol> {
    vec![Symbol::InitHeap, Symbol::Malloc]
}

fn p(step: usize, width: u32) -> PointerOperand {
    PointerOperand::Register {
        register: Register { step, part: 0 },
        pointee: Pointee::Int(width),
    }
}

fn i(step: usize) -> IntOperand {
    IntOperand::Register { register: Register { step, part: 0 }, width: 32 }
}

fn k(value: u64) -> IntOperand {
    IntOperand::Const { width: 32, value }
}

fn call<'a>(symbol: Symbol, args: List<Operand>, name: &'static str) -> Step<'a> {
    Step::Call { callee: FunctionRef::Symbol(symbol), args, name }
}

fn external<'a>(symbol: Symbol, ret: Option<Kind>, params: List<Kind>) -> Step<'a> {
    Step::AddFunction { symbol, ret, params, external: true }
}

fn declarations<'a>() -> Vec<Step<'a>> {
    let p = Kind::Pointer(Pointee::Int(8));
    let i = Kind::Int(32);
    vec![
        external(Symbol::StorageStore, None, List::Two(p, p)),
        external(Symbol::StorageLoad, None, List::Two(p, p)),
        external(Symbol::GetCallDataSize, Some(i), List::Zero),
        external(Symbol::GetCodeSize, Some(i), List::Zero),
        external(Symbol::GetReturnDataSize, Some(i), List::Zero),
        external(Symbol::CallDataCopy, None, List::Three(p, i, i)),
        external(Symbol::CodeCopy, None, List::Three(p, i, i)),
        external(Symbol::ReturnDataCopy, None, List::Three(p, i, i)),
        external(Symbol::PrintMem, None, List::Two(p, i)),
        external(Symbol::Create, Some(i), List::Four(p, p, i, p)),
        external(Symbol::Call, Some(i), List::Five(Kind::Int(64), p, p, p, i)),
        external(Symbol::Finish, None, List::Two(p, i)),
        Step::SetNoReturn { declaration: 11 },
        external(Symbol::Revert, None, List::Two(p, i)),
        Step::SetNoReturn { declaration: 13 },
    ]
}

fn add_main<'a>() -> Step<'a> {
    Step::AddFunction { symbol: Symbol::Main, ret: None, params: List::Zero, external: false }
}

fn runtime<'a>(contract: &'a resolver::Contract, ns: &'a resolver::Namespace) -> Contract<'a> {
    EwasmTarget::build_runtime(contract, ns, "a.sol", OptimizationLevel::Less, library())
}

#[test]
fn runtime_without_fallback_traps_on_unknown_calls() {
    let contract = source(0, 2, None);
    let ns = resolver::Namespace { contracts: Vec::new() };
    let c = runtime(&contract, &ns);
    let mut expected = declarations();
    expected.extend([
        Step::EmitFunctions,
        add_main(),
        Step::AppendBlock { function: FunctionRef::Added(16), name: "entry" },
        Step::PositionAtEnd { block: BlockRef { step: 17 } },
        call(Symbol::InitHeap, List::Zero, ""),
        call(Symbol::GetCallDataSize, List::Zero, "calldatasize"),
        call(Symbol::Malloc, List::One(Operand::Int(i(20))), ""),
        call(
            Symbol::CallDataCopy,
            List::Three(Operand::Pointer(p(21, 8)), Operand::Int(k(0)), Operand::Int(i(20))),
            "",
        ),
        Step::PointerCast { pointer: p(21, 8), width: 32, name: "" },
        Step::AppendBlock { function: FunctionRef::Added(16), name: "fallback" },
        Step::Dispatch {
            functions: &contract.functions,
            emitted: 2,
            data: p(23, 32),
            length: i(20),
            function: FunctionRef::Added(16),
            fallback: BlockRef { step: 24 },
        },
        Step::PositionAtEnd { block: BlockRef { step: 24 } },
        Step::Unreachable,
        Step::Internalize,
        Step::Wasm { linking: true },
    ]);
    assert_eq!(c.steps, expected);
    assert_eq!(c.exports, ["main"]);
    assert_eq!(c.functions, [FunctionRef::Function(0), FunctionRef::Function(1)]);
    assert!(c.constructors.is_empty());
    assert!(c.globals.is_empty());
    assert!(c.runtime.is_none());
    assert_eq!(c.code_size, None);
    assert_eq!(c.filename, "a.sol");
    assert_eq!(c.opt, OptimizationLevel::Less);
}

#[test]
fn runtime_with_fallback_calls_it() {
    let contract = source(0, 3, Some(2));
    let ns = resolver::Namespace { contracts: Vec::new() };
    let c = runtime(&contract, &ns);
    assert_eq!(
        c.steps[27..],
        [
            Step::Call { callee: FunctionRef::Function(2), args: List::Zero, name: "" },
            Step::Return { value: k(0) },
            Step::Internalize,
            Step::Wasm { linking: true },
        ]
    );
}

#[test]
fn runtime_holds_the_library_and_the_host() {
    let contract = source(0, 0, None);
    let ns = resolver::Namespace { contracts: Vec::new() };
    let c = runtime(&contract, &ns);
    assert_eq!(
        c.symbols,
        [
            Symbol::InitHeap,
            Symbol::Malloc,
            Symbol::StorageStore,
            Symbol::StorageLoad,
            Symbol::GetCallDataSize,
            Symbol::GetCodeSize,
            Symbol::GetReturnDataSize,
            Symbol::CallDataCopy,
            Symbol::CodeCopy,
            Symbol::ReturnDataCopy,
            Symbol::PrintMem,
            Symbol::Create,
            Symbol::Call,
            Symbol::Finish,
            Symbol::Revert,
            Symbol::Main,
        ]
    );
}

fn deployer_start<'a>() -> Vec<Step<'a>> {
    let mut expected = declarations();
    expected.extend([
        Step::EmitFunctions,
        Step::EmitInitializer,
        add_main(),
        Step::AppendBlock { function: FunctionRef::Added(17), name: "entry" },
        Step::PositionAtEnd { block: BlockRef { step: 18 } },
        call(Symbol::InitHeap, List::Zero, ""),
        call(Symbol::GetCodeSize, List::Zero, "codesize"),
        Step::IntSub { lhs: i(21), rhs: k(0x4000) },
        call(Symbol::Malloc, List::One(Operand::Int(i(22))), ""),
        call(
            Symbol::CodeCopy,
            List::Three(
                Operand::Pointer(p(23, 8)),
                Operand::Int(k(0x4000)),
                Operand::Int(i(22)),
            ),
            "",
        ),
        Step::PointerCast { pointer: p(23, 8), width: 32, name: "" },
        Step::Call { callee: FunctionRef::Initializer(16), args: List::Zero, name: "" },
    ]);
    expected
}

#[test]
fn deployer_without_constructor_returns_the_runtime() {
    let contract = source(0, 1, None);
    let ns = resolver::Namespace { contracts: Vec::new() };
    let c = EwasmTarget::build(runtime(&contract, &ns), b"runtime", library());
    let mut expected = deployer_start();
    expected.extend([
        Step::GlobalString { global: 0 },
        call(
            Symbol::Finish,
            List::Two(Operand::Pointer(p(27, 8)), Operand::Int(k(7))),
            "",
        ),
        Step::Unreachable,
        Step::Internalize,
    ]);
    assert_eq!(c.steps, expected);
    assert_eq!(c.globals.len(), 1);
    assert_eq!(c.globals[0].name, "runtime_code");
    assert_eq!(c.globals[0].data, b"runtime");
    assert!(c.globals[0].constant);
    assert_eq!(c.code_size, Some(k(0x4000)));
    assert_eq!(c.filename, "a.sol");
    assert_eq!(c.opt, OptimizationLevel::Less);
    let inner = c.runtime.unwrap();
    assert_eq!(inner.steps.len(), 30);
    assert_eq!(inner.exports, ["main"]);
}

#[test]
fn deployer_with_constructors_runs_the_first() {
    let contract = source(2, 0, None);
    let ns = resolver::Namespace { contracts: Vec::new() };
    let c = EwasmTarget::build(runtime(&contract, &ns), b"", library());
    let mut expected = deployer_start();
    expected.extend([
        Step::Decode {
            function: FunctionRef::Added(17),
            data: p(25, 32),
            length: i(22),
            parameters: &contract.constructors[0].params,
        },
        Step::CallDecoded { callee: FunctionRef::Constructor(0), decode: 27 },
        Step::GlobalString { global: 0 },
        call(
            Symbol::Finish,
            List::Two(Operand::Pointer(p(29, 8)), Operand::Int(k(0))),
            "",
        ),
        Step::Unreachable,
        Step::Internalize,
    ]);
    assert_eq!(c.steps, expected);
    assert_eq!(c.constructors, [FunctionRef::Constructor(0), FunctionRef::Constructor(1)]);
}

#[test]
fn deployer_exports_the_host_functions() {
    let contract = source(0, 0, None);
    let ns = resolver::Namespace { contracts: Vec::new() };
    let c = EwasmTarget::build(runtime(&contract, &ns), b"", library());
    assert_eq!(
        c.exports,
        [
            "main",
            "getCallDataSize",
            "callDataCopy",
            "storageStore",
            "storageLoad",
            "finish",
            "revert",
            "copyCopy",
            "getCodeSize",
            "printMem",
            "call",
            "create",
            "getReturnDataSize",
            "returnDataCopy",
        ]
    );
}

#[test]
fn every_host_function_is_declared_once() {
    let contract = source(0, 0, None);
    let ns = resolver::Namespace { contracts: Vec::new() };
    let c = runtime(&contract, &ns);
    let mut declared = Vec::new();
    for step in &c.steps {
        if let Step::AddFunction { symbol, external: true, .. } = step {
            assert!(!declared.contains(symbol));
            declared.push(*symbol);
        }
    }
    assert_eq!(declared.len(), 13);
    let mut ends = Vec::new();
    for step in &c.steps {
        if let Step::SetNoReturn { declaration } = step {
            match c.steps[*declaration] {
                Step::AddFunction { symbol, .. } => ends.push(symbol),
                other => panic!("{:?}", other),
            }
        }
    }
    assert_eq!(ends, [Symbol::Finish, Symbol::Revert]);
}

#[test]
fn dispatches_can_be_emitted_on_their_own() {
    let contract = source(0, 1, Some(0));
    let ns = resolver::Namespace { contracts: Vec::new() };
    let symbols = vec![
        Symbol::InitHeap,
        Symbol::Malloc,
        Symbol::GetCallDataSize,
        Symbol::CallDataCopy,
        Symbol::GetCodeSize,
        Symbol::CodeCopy,
        Symbol::Finish,
    ];
    let target = EwasmTarget { abi: EthAbiEncoder {} };
    let mut c =
        Contract::new(&contract, &ns, "", OptimizationLevel::Off, None, symbols.clone());
    c.functions.push(FunctionRef::Function(0));
    target.emit_function_dispatch(&mut c);
    assert_eq!(c.steps.len(), 13);
    match c.steps[9] {
        Step::Dispatch { functions, emitted, function, .. } => {
            assert_eq!(functions, &contract.functions);
            assert_eq!(emitted, 1);
            assert_eq!(function, FunctionRef::Added(0));
        }
        other => panic!("{:?}", other),
    }
    assert_eq!(c.symbols.last(), Some(&Symbol::Main));
    let mut c = Contract::new(&contract, &ns, "", OptimizationLevel::Off, None, symbols);
    target.deployer_dispatch(&mut c, b"xyz");
    assert_eq!(c.steps.len(), 14);
    assert_eq!(c.code_size, Some(k(0x4000)));
    assert_eq!(c.globals[0].data, b"xyz");
}
