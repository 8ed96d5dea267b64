//! The steps that each operation of the target takes.
use ewasm_emit::contract::{Contract, OptimizationLevel};
use ewasm_emit::ethabiencoder::EthAbiEncoder;
use ewasm_emit::ewasm::EwasmTarget;
use ewasm_emit::ir::{
    BlockRef, FunctionRef, IntOperand, Kind, List, Operand, Pointee, PointerOperand, Register,
    Step, Symbol,
};
use ewasm_emit::resolver;

const TARGET: EwasmTarget = EwasmTarget { abi: EthAbiEncoder {} };

fn all_symbols() -> Vec<Symbol> {
    vec![
        Symbol::StorageStore,
        Symbol::StorageLoad,
        Symbol::GetCallDataSize,
        Symbol::GetCodeSize,
        Symbol::GetReturnDataSize,
        Symbol::CallDataCopy,
        Symbol::CodeCopy,
        Symbol::ReturnDataCopy,
        Symbol::PrintMem,
        Symbol::Create,
        Symbol::Call,
        Symbol::Finish,
        Symbol::Revert,
        Symbol::InitHeap,
        Symbol::Malloc,
        Symbol::Bzero8,
        Symbol::Memcpy,
        Symbol::Sha3,
    ]
}

fn parameter(index: usize, encoded_fixed_length: u64) -> resolver::Parameter {
    resolver::Parameter { ty: resolver::Type { index, encoded_fixed_length } }
}

fn source(name: &str, constructors: Vec<Vec<u64>>) -> resolver::Contract {
    let constructors = constructors
        .into_iter()
        .map(|lengths| resolver::Function {
            params: lengths
                .into_iter()
                .enumerate()
                .map(|(i, length)| parameter(i, length))
                .collect(),
        })
        .collect();
    resolver::Contract {
        name: name.to_owned(),
        constructors,
        functions: Vec::new(),
        fallback: None,
    }
}

fn namespace() -> resolver::Namespace {
    resolver::Namespace { contracts: Vec::new() }
}

fn session<'a>(contract: &'a resolver::Contract, ns: &'a resolver::Namespace) -> Contract<'a> {
    Contract::new(contract, ns, "a.sol", OptimizationLevel::Default, None, all_symbols())
}

fn pointer(contract: &mut Contract, width: u32) -> PointerOperand {
    match contract.import(Kind::Pointer(Pointee::Int(width))) {
        Operand::Pointer(p) => p,
        other => panic!("{:?}", other),
    }
}

fn integer(contract: &mut Contract, width: u32) -> IntOperand {
    match contract.import(Kind::Int(width)) {
        Operand::Int(i) => i,
        other => panic!("{:?}", other),
    }
}

fn p(step: usize, width: u32) -> PointerOperand {
    PointerOperand::Register {
        register: Register { step, part: 0 },
        pointee: Pointee::Int(width),
    }
}

fn i(step: usize, width: u32) -> IntOperand {
    IntOperand::Register { register: Register { step, part: 0 }, width }
}

fn k(value: u64) -> IntOperand {
    IntOperand::Const { width: 32, value }
}

fn null() -> PointerOperand {
    PointerOperand::Null { pointee: Pointee::Int(8) }
}

fn ap(step: usize, width: u32) -> Operand {
    Operand::Pointer(p(step, width))
}

fn ai(step: usize, width: u32) -> Operand {
    Operand::Int(i(step, width))
}

fn ak(value: u64) -> Operand {
    Operand::Int(k(value))
}

fn call<'a>(symbol: Symbol, args: List<Operand>, name: &'static str) -> Step<'a> {
    Step::Call { callee: FunctionRef::Symbol(symbol), args, name }
}

fn cast<'a>(pointer: PointerOperand, width: u32, name: &'static str) -> Step<'a> {
    Step::PointerCast { pointer, width, name }
}

#[test]
fn clear_storage_zeroes_a_word_and_stores_it() {
    let (contract, ns) = (source("c", vec![]), namespace());
    let mut c = session(&contract, &ns);
    let slot = pointer(&mut c, 256);
    TARGET.clear_storage(&mut c, FunctionRef::Enclosing, slot);
    assert_eq!(
        c.steps[1..],
        [
            Step::Alloca { width: 256, name: "value" },
            cast(p(1, 256), 8, "value8"),
            call(Symbol::Bzero8, List::Two(ap(2, 8), ak(4)), ""),
            cast(p(0, 256), 8, ""),
            call(Symbol::StorageStore, List::Two(ap(4, 8), ap(2, 8)), ""),
        ]
    );
}

#[test]
fn set_storage_stores_a_full_word_from_where_it_is() {
    let (contract, ns) = (source("c", vec![]), namespace());
    let mut c = session(&contract, &ns);
    let slot = pointer(&mut c, 256);
    let dest = pointer(&mut c, 256);
    TARGET.set_storage(&mut c, FunctionRef::Enclosing, slot, dest);
    assert_eq!(
        c.steps[2..],
        [
            cast(p(0, 256), 8, ""),
            cast(p(1, 256), 8, ""),
            call(Symbol::StorageStore, List::Two(ap(2, 8), ap(3, 8)), ""),
        ]
    );
}

#[test]
fn set_storage_extends_a_narrow_integer() {
    for width in [1, 8, 160, 255] {
        let (contract, ns) = (source("c", vec![]), namespace());
        let mut c = session(&contract, &ns);
        let slot = pointer(&mut c, 256);
        let dest = pointer(&mut c, width);
        TARGET.set_storage(&mut c, FunctionRef::Enclosing, slot, dest);
        assert_eq!(
            c.steps[2..],
            [
                Step::Alloca { width: 256, name: "value" },
                cast(p(2, 256), 8, "value8"),
                call(Symbol::Bzero8, List::Two(ap(3, 8), ak(4)), ""),
                Step::Load { pointer: p(1, width), width, name: "value" },
                Step::PointerCastLike { pointer: p(2, 256), like: p(1, width), name: "" },
                Step::Store { pointer: p(6, width), value: i(5, width) },
                cast(p(0, 256), 8, ""),
                call(Symbol::StorageStore, List::Two(ap(8, 8), ap(3, 8)), ""),
            ]
        );
    }
}

#[test]
fn get_storage_int_loads_from_a_buffer() {
    let (contract, ns) = (source("c", vec![]), namespace());
    let mut c = session(&contract, &ns);
    let slot = pointer(&mut c, 256);
    let value = TARGET.get_storage_int(&mut c, FunctionRef::Enclosing, slot, 64);
    assert_eq!(value, i(6, 64));
    assert_eq!(
        c.steps[1..],
        [
            Step::ArrayAlloca { width: 8, count: k(32), name: "buf" },
            cast(p(0, 256), 8, ""),
            cast(p(1, 8), 8, ""),
            call(Symbol::StorageLoad, List::Two(ap(2, 8), ap(3, 8)), ""),
            cast(p(1, 8), 64, ""),
            Step::Load { pointer: p(5, 64), width: 64, name: "loaded_int" },
        ]
    );
}

#[test]
fn storage_reads_follow_writes() {
    let (contract, ns) = (source("c", vec![]), namespace());
    let mut c = session(&contract, &ns);
    let slot = pointer(&mut c, 256);
    let dest = pointer(&mut c, 32);
    TARGET.set_storage(&mut c, FunctionRef::Enclosing, slot, dest);
    let value = TARGET.get_storage_int(&mut c, FunctionRef::Enclosing, slot, 32);
    assert_eq!(c.steps.len(), 2 + 8 + 6);
    assert_eq!(value, i(15, 32));
    TARGET.clear_storage(&mut c, FunctionRef::Enclosing, slot);
    let value = TARGET.get_storage_int(&mut c, FunctionRef::Enclosing, slot, 32);
    assert_eq!(value, i(26, 32));
}

#[test]
fn keccak256_hash_calls_the_library() {
    let (contract, ns) = (source("c", vec![]), namespace());
    let mut c = session(&contract, &ns);
    let src = pointer(&mut c, 256);
    let length = integer(&mut c, 32);
    let dest = pointer(&mut c, 256);
    TARGET.keccak256_hash(&mut c, src, length, dest);
    assert_eq!(
        c.steps[3..],
        [
            cast(p(0, 256), 8, "src"),
            cast(p(2, 256), 8, "dest"),
            call(Symbol::Sha3, List::Four(ap(3, 8), ai(1, 32), ap(4, 8), ak(32)), ""),
        ]
    );
}

#[test]
fn return_empty_abi_finishes_with_nothing() {
    let (contract, ns) = (source("c", vec![]), namespace());
    let mut c = session(&contract, &ns);
    TARGET.return_empty_abi(&mut c);
    assert_eq!(
        c.steps,
        [
            call(Symbol::Finish, List::Two(Operand::Pointer(null()), ak(0)), ""),
            Step::Return { value: k(0) },
        ]
    );
}

#[test]
fn return_abi_finishes_with_the_data() {
    let (contract, ns) = (source("c", vec![]), namespace());
    let mut c = session(&contract, &ns);
    let data = pointer(&mut c, 8);
    let length = integer(&mut c, 32);
    TARGET.return_abi(&mut c, data, length);
    assert_eq!(
        c.steps[2..],
        [
            call(Symbol::Finish, List::Two(ap(0, 8), ai(1, 32)), ""),
            Step::Return { value: k(0) },
        ]
    );
}

#[test]
fn assert_failure_reverts_with_the_data() {
    let (contract, ns) = (source("c", vec![]), namespace());
    let mut c = session(&contract, &ns);
    let data = pointer(&mut c, 8);
    let length = integer(&mut c, 32);
    TARGET.assert_failure(&mut c, data, length);
    assert_eq!(
        c.steps[2..],
        [call(Symbol::Revert, List::Two(ap(0, 8), ai(1, 32)), ""), Step::Unreachable]
    );
}

#[test]
fn print_prints_the_string() {
    let (contract, ns) = (source("c", vec![]), namespace());
    let mut c = session(&contract, &ns);
    let string = pointer(&mut c, 8);
    let length = integer(&mut c, 32);
    TARGET.print(&mut c, string, length);
    assert_eq!(c.steps[2..], [call(Symbol::PrintMem, List::Two(ap(0, 8), ai(1, 32)), "")]);
}

#[test]
fn external_call_sends_no_gas_and_no_balance() {
    let (contract, ns) = (source("c", vec![]), namespace());
    let mut c = session(&contract, &ns);
    let payload = pointer(&mut c, 8);
    let length = integer(&mut c, 32);
    let address = pointer(&mut c, 8);
    let status = TARGET.external_call(&mut c, payload, length, address);
    assert_eq!(status, i(4, 32));
    assert_eq!(
        c.steps[3..],
        [
            Step::GlobalString { global: 0 },
            call(
                Symbol::Call,
                List::Five(
                    Operand::Int(IntOperand::Const { width: 64, value: 0 }),
                    ap(2, 8),
                    ap(3, 8),
                    ap(0, 8),
                    ai(1, 32),
                ),
                "",
            ),
        ]
    );
    assert_eq!(c.globals.len(), 1);
    assert_eq!(c.globals[0].name, "balance");
    assert_eq!(c.globals[0].data, [0; 16]);
    assert!(c.globals[0].constant);
}

#[test]
fn return_data_copies_the_whole_of_it() {
    let (contract, ns) = (source("c", vec![]), namespace());
    let mut c = session(&contract, &ns);
    let (data, length) = TARGET.return_data(&mut c);
    assert_eq!((data, length), (p(1, 8), i(0, 32)));
    assert_eq!(
        c.steps,
        [
            call(Symbol::GetReturnDataSize, List::Zero, "returndatasize"),
            call(Symbol::Malloc, List::One(ai(0, 32)), ""),
            call(Symbol::ReturnDataCopy, List::Three(ap(1, 8), ak(0), ai(0, 32)), ""),
        ]
    );
}

#[test]
fn abi_decode_yields_a_value_for_each_parameter() {
    let (contract, ns) = (source("c", vec![]), namespace());
    let spec = vec![parameter(4, 32), parameter(5, 32)];
    let mut c = session(&contract, &ns);
    let data = pointer(&mut c, 32);
    let length = integer(&mut c, 32);
    let mut args = vec![ak(9)];
    TARGET.abi_decode(&mut c, FunctionRef::Enclosing, &mut args, data, length, &spec);
    assert_eq!(
        c.steps[2..],
        [Step::Decode {
            function: FunctionRef::Enclosing,
            data: p(0, 32),
            length: i(1, 32),
            parameters: &spec,
        }]
    );
    assert_eq!(
        args,
        [
            ak(9),
            Operand::Other(Register { step: 2, part: 0 }),
            Operand::Other(Register { step: 2, part: 1 }),
        ]
    );
}

#[test]
fn encode_without_anything_allocates_nothing() {
    let (contract, ns) = (source("c", vec![]), namespace());
    let mut c = session(&contract, &ns);
    let encoded = TARGET.abi_encode(&mut c, None, false, FunctionRef::Enclosing, &[], &[]);
    assert_eq!(encoded, (p(0, 8), k(0)));
    assert_eq!(
        c.steps,
        [
            call(Symbol::Malloc, List::One(ak(0)), ""),
            Step::IntUnsignedDiv { lhs: k(0), rhs: k(8) },
            call(Symbol::Bzero8, List::Two(ap(0, 8), ai(1, 32)), ""),
            Step::Gep { pointer: p(0, 8), index: k(0) },
        ]
    );
}

#[test]
fn encode_stores_the_selector_high_byte_first() {
    let (contract, ns) = (source("c", vec![]), namespace());
    let mut c = session(&contract, &ns);
    let selector = Some(0x0102_03f4);
    let encoded = TARGET.abi_encode(&mut c, selector, false, FunctionRef::Enclosing, &[], &[]);
    assert_eq!(encoded, (p(1, 8), i(0, 32)));
    assert_eq!(
        c.steps,
        [
            Step::IntAdd { lhs: k(0), rhs: k(4) },
            call(Symbol::Malloc, List::One(ai(0, 32)), ""),
            cast(p(1, 8), 32, ""),
            Step::Store { pointer: p(2, 32), value: k(0xf403_0201) },
            Step::Gep { pointer: p(1, 8), index: k(4) },
            Step::IntUnsignedDiv { lhs: i(0, 32), rhs: k(8) },
            call(Symbol::Bzero8, List::Two(ap(4, 8), ai(5, 32)), ""),
            Step::Gep { pointer: p(4, 8), index: k(0) },
        ]
    );
    // on a little-endian host the word is the selector's big-endian bytes
    assert_eq!(0xf403_0201u32.to_le_bytes(), 0x0102_03f4u32.to_be_bytes());
}

#[test]
fn encode_adds_up_and_writes_the_arguments() {
    let (contract, ns) = (source("c", vec![]), namespace());
    let spec = [parameter(0, 32), parameter(1, 64)];
    let mut c = session(&contract, &ns);
    let number = c.import(Kind::Int(256));
    let string = c.import(Kind::Pointer(Pointee::Other));
    let code = pointer(&mut c, 8);
    let encoded = TARGET.encode(
        &mut c,
        Some(1),
        Some((code, 10)),
        true,
        FunctionRef::Enclosing,
        &[number, string],
        &spec,
    );
    assert_eq!(encoded, (p(9, 8), i(8, 32)));
    let part = |step, part, width| PointerOperand::Register {
        register: Register { step, part },
        pointee: Pointee::Int(width),
    };
    assert_eq!(
        c.steps[3..],
        [
            Step::DynamicLength {
                arg: number,
                load: true,
                ty: spec[0].ty,
                function: FunctionRef::Enclosing,
            },
            Step::IntAdd { lhs: k(96), rhs: i(3, 32) },
            Step::DynamicLength {
                arg: string,
                load: true,
                ty: spec[1].ty,
                function: FunctionRef::Enclosing,
            },
            Step::IntAdd { lhs: i(4, 32), rhs: i(5, 32) },
            Step::IntAdd { lhs: i(6, 32), rhs: k(4) },
            Step::IntAdd { lhs: i(7, 32), rhs: k(10) },
            call(Symbol::Malloc, List::One(ai(8, 32)), ""),
            cast(p(9, 8), 32, ""),
            Step::Store { pointer: p(10, 32), value: k(0x0100_0000) },
            Step::Gep { pointer: p(9, 8), index: k(4) },
            cast(p(12, 8), 8, ""),
            call(Symbol::Memcpy, List::Three(ap(13, 8), ap(2, 8), ak(10)), ""),
            Step::Gep { pointer: p(12, 8), index: k(10) },
            Step::IntUnsignedDiv { lhs: i(7, 32), rhs: k(8) },
            call(Symbol::Bzero8, List::Two(ap(15, 8), ai(16, 32)), ""),
            Step::Gep { pointer: p(15, 8), index: k(96) },
            Step::EncodeTy {
                load: true,
                function: FunctionRef::Enclosing,
                ty: spec[0].ty,
                arg: number,
                data: p(15, 8),
                offset: k(96),
                dynamic: p(18, 8),
            },
            Step::EncodeTy {
                load: true,
                function: FunctionRef::Enclosing,
                ty: spec[1].ty,
                arg: string,
                data: part(19, 0, 8),
                offset: IntOperand::Register {
                    register: Register { step: 19, part: 1 },
                    width: 32,
                },
                dynamic: part(19, 2, 8),
            },
        ]
    );
}

#[test]
fn creation_request_names_the_contract() {
    let contract = source("maker", vec![]);
    let ns = resolver::Namespace {
        contracts: vec![source("maker", vec![]), source("made", vec![])],
    };
    let c = session(&contract, &ns);
    let request = TARGET.creation_request(&c, 1);
    assert_eq!(request.contract.name, "made");
    assert_eq!(request.filename, "");
    assert_eq!(request.opt, OptimizationLevel::Default);
    assert!(request.linking);
}

#[test]
fn create_contract_sends_the_code_and_bails_out() {
    let contract = source("maker", vec![]);
    let ns = resolver::Namespace { contracts: vec![source("made", vec![])] };
    let mut c = session(&contract, &ns);
    let address = pointer(&mut c, 8);
    TARGET.create_contract(&mut c, FunctionRef::Enclosing, 0, 0, address, &[], b"\0asm\x01");
    assert_eq!(
        c.steps[1..],
        [
            Step::GlobalString { global: 0 },
            Step::IntAdd { lhs: k(0), rhs: k(5) },
            call(Symbol::Malloc, List::One(ai(2, 32)), ""),
            cast(p(3, 8), 8, ""),
            call(Symbol::Memcpy, List::Three(ap(4, 8), ap(1, 8), ak(5)), ""),
            Step::Gep { pointer: p(3, 8), index: k(5) },
            Step::IntUnsignedDiv { lhs: k(0), rhs: k(8) },
            call(Symbol::Bzero8, List::Two(ap(6, 8), ai(7, 32)), ""),
            Step::Gep { pointer: p(6, 8), index: k(0) },
            Step::GlobalString { global: 1 },
            call(
                Symbol::Create,
                List::Four(ap(10, 8), ap(3, 8), ai(2, 32), ap(0, 8)),
                "",
            ),
            Step::IntEqual { lhs: i(11, 32), rhs: k(0), name: "success" },
            Step::AppendBlock { function: FunctionRef::Enclosing, name: "success" },
            Step::AppendBlock { function: FunctionRef::Enclosing, name: "bail" },
            Step::CondBranch {
                condition: i(12, 1),
                then_block: BlockRef { step: 13 },
                else_block: BlockRef { step: 14 },
            },
            Step::PositionAtEnd { block: BlockRef { step: 14 } },
            call(Symbol::Revert, List::Two(Operand::Pointer(null()), ak(0)), ""),
            Step::Unreachable,
            Step::PositionAtEnd { block: BlockRef { step: 13 } },
        ]
    );
    assert_eq!(c.globals.len(), 2);
    assert_eq!(c.globals[0].name, "contract_made_code");
    assert_eq!(c.globals[0].data, b"\0asm\x01");
    assert_eq!(c.globals[1].name, "balance");
    assert_eq!(c.globals[1].data, [0; 16]);
}

#[test]
fn create_contract_encodes_the_chosen_constructors_arguments() {
    let contract = source("maker", vec![]);
    let ns = resolver::Namespace { contracts: vec![source("made", vec![vec![], vec![32]])] };
    let mut c = session(&contract, &ns);
    let address = pointer(&mut c, 8);
    let arg = c.import(Kind::Int(256));
    TARGET.create_contract(&mut c, FunctionRef::Enclosing, 0, 1, address, &[arg], b"code");
    assert_eq!(
        c.steps[3..6],
        [
            Step::DynamicLength {
                arg,
                load: false,
                ty: resolver::Type { index: 0, encoded_fixed_length: 32 },
                function: FunctionRef::Enclosing,
            },
            Step::IntAdd { lhs: k(32), rhs: i(3, 32) },
            Step::IntAdd { lhs: i(4, 32), rhs: k(4) },
        ]
    );
    assert!(matches!(c.steps[13], Step::EncodeTy { load: false, .. }));
}

#[test]
fn names_are_the_hosts() {
    let names: Vec<&str> = all_symbols().iter().map(|s| s.name()).collect();
    assert_eq!(
        names,
        [
            "storageStore",
            "storageLoad",
            "getCallDataSize",
            "getCodeSize",
            "getReturnDataSize",
            "callDataCopy",
            "codeCopy",
            "returnDataCopy",
            "printMem",
            "create",
            "call",
            "finish",
            "revert",
            "__init_heap",
            "__malloc",
            "__bzero8",
            "__memcpy",
            "sha3",
        ]
    );
    assert_eq!(Symbol::Main.name(), "main");
}
