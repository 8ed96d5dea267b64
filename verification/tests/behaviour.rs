//! What the emitted steps do, on a small machine with the host's functions.
use ewasm_emit::contract::{Contract, OptimizationLevel};
use ewasm_emit::ethabiencoder::EthAbiEncoder;
use ewasm_emit::ewasm::EwasmTarget;
use ewasm_emit::ir::{
    FunctionRef, IntOperand, Kind, List, Operand, Pointee, PointerOperand, Step, Symbol,
};
use ewasm_emit::resolver;
use std::collections::HashMap;

const TARGET: EwasmTarget = EwasmTarget { abi: EthAbiEncoder {} };

#[derive(Clone, Debug, PartialEq)]
enum Status {
    Running,
    Jumped(usize),
    Returned,
    Finished(Vec<u8>),
    Reverted(Vec<u8>),
    Trapped,
}

#[derive(Clone, Debug, PartialEq)]
struct Message {
    gas: u128,
    address: Vec<u8>,
    balance: Vec<u8>,
    input: Vec<u8>,
}

struct Machine {
    status: Status,
    registers: HashMap<(usize, usize), u128>,
    memory: Vec<u8>,
    free: usize,
    storage: HashMap<Vec<u8>, Vec<u8>>,
    call_data: Vec<u8>,
    code: Vec<u8>,
    return_data: Vec<u8>,
    printed: Vec<Vec<u8>>,
    messages: Vec<Message>,
    /// The status and the data of calls and creations.
    reply: (u128, Vec<u8>),
    /// What a dynamic part takes.
    dynamic_length: u128,
    /// Whether a dispatch finds a function.
    found: bool,
    called: Vec<FunctionRef>,
}

fn machine() -> Machine {
    Machine {
        status: Status::Running,
        registers: HashMap::new(),
        memory: vec![0xee; 0x1_0000],
        free: 0x1000,
        storage: HashMap::new(),
        call_data: Vec::new(),
        code: Vec::new(),
        return_data: Vec::new(),
        printed: Vec::new(),
        messages: Vec::new(),
        reply: (0, Vec::new()),
        dynamic_length: 0,
        found: false,
        called: Vec::new(),
    }
}

fn low(value: u128, width: u32) -> u128 {
    if width >= 128 {
        value
    } else {
        value % (1 << width)
    }
}

impl Machine {
    fn integer(&self, value: IntOperand) -> u128 {
        match value {
            IntOperand::Const { width, value } => low(value as u128, width),
            IntOperand::Register { register, .. } => {
                self.registers[&(register.step, register.part)]
            }
        }
    }

    fn address(&self, value: PointerOperand) -> usize {
        match value {
            PointerOperand::Null { .. } => 0,
            PointerOperand::Register { register, .. } => {
                self.registers[&(register.step, register.part)] as usize
            }
        }
    }

    fn value(&self, value: Operand) -> u128 {
        match value {
            Operand::Int(v) => self.integer(v),
            Operand::Pointer(v) => self.address(v) as u128,
            Operand::Other(r) => self.registers[&(r.step, r.part)],
        }
    }

    fn bytes(&self, address: u128, n: u128) -> Vec<u8> {
        self.memory[address as usize..(address + n) as usize].to_vec()
    }

    fn write(&mut self, address: usize, bytes: &[u8]) {
        self.memory[address..address + bytes.len()].copy_from_slice(bytes);
    }

    fn allocate(&mut self, n: usize) -> u128 {
        let address = self.free;
        self.free += n + 0x100;
        address as u128
    }

    fn copy(&mut self, data: Vec<u8>, args: &[u128]) {
        let (from, n) = (args[1] as usize, args[2] as usize);
        if from + n <= data.len() {
            self.write(args[0] as usize, &data[from..from + n]);
        } else {
            self.status = Status::Trapped;
        }
    }

    fn call(&mut self, symbol: Symbol, a: &[u128]) -> Option<u128> {
        match symbol {
            Symbol::StorageStore => {
                let (slot, value) = (self.bytes(a[0], 32), self.bytes(a[1], 32));
                self.storage.insert(slot, value);
            }
            Symbol::StorageLoad => {
                let slot = self.bytes(a[0], 32);
                let value = self.storage.get(&slot).cloned().unwrap_or(vec![0; 32]);
                self.write(a[1] as usize, &value);
            }
            Symbol::GetCallDataSize => return Some(self.call_data.len() as u128),
            Symbol::GetCodeSize => return Some(self.code.len() as u128),
            Symbol::GetReturnDataSize => return Some(self.return_data.len() as u128),
            Symbol::CallDataCopy => self.copy(self.call_data.clone(), a),
            Symbol::CodeCopy => self.copy(self.code.clone(), a),
            Symbol::ReturnDataCopy => self.copy(self.return_data.clone(), a),
            Symbol::PrintMem => self.printed.push(self.bytes(a[0], a[1])),
            Symbol::Create => {
                self.messages.push(Message {
                    gas: 0,
                    address: Vec::new(),
                    balance: self.bytes(a[0], 16),
                    input: self.bytes(a[1], a[2]),
                });
                if self.reply.0 == 0 {
                    self.write(a[3] as usize, &[0xad; 20]);
                }
                return Some(self.reply.0);
            }
            Symbol::Call => {
                self.messages.push(Message {
                    gas: a[0],
                    address: self.bytes(a[1], 20),
                    balance: self.bytes(a[2], 16),
                    input: self.bytes(a[3], a[4]),
                });
                self.return_data = self.reply.1.clone();
                return Some(self.reply.0);
            }
            Symbol::Finish => self.status = Status::Finished(self.bytes(a[0], a[1])),
            Symbol::Revert => self.status = Status::Reverted(self.bytes(a[0], a[1])),
            Symbol::InitHeap => {}
            Symbol::Malloc => return Some(self.allocate(a[0] as usize)),
            Symbol::Bzero8 => self.write(a[0] as usize, &vec![0; 8 * a[1] as usize]),
            Symbol::Memcpy => {
                let bytes = self.bytes(a[1], a[2]);
                self.write(a[0] as usize, &bytes);
            }
            Symbol::Sha3 => {
                // any function of the bytes will do
                let sum: u8 = self.bytes(a[0], a[1]).iter().fold(0, |s, b| s ^ b);
                self.write(a[2] as usize, &vec![sum; a[3] as usize]);
            }
            Symbol::Main => self.status = Status::Trapped,
        }
        None
    }

    fn execute(&mut self, contract: &Contract, step: Step) -> Vec<u128> {
        match step {
            Step::PositionAtEnd { .. } | Step::Unreachable => self.status = Status::Trapped,
            Step::Call { callee: FunctionRef::Symbol(symbol), args, .. } => {
                let args: Vec<u128> = args.to_vec().iter().map(|a| self.value(*a)).collect();
                return self.call(symbol, &args).into_iter().collect();
            }
            Step::Call { callee, .. } | Step::CallDecoded { callee, .. } => {
                self.called.push(callee);
            }
            Step::IntAdd { lhs, rhs } => {
                return vec![low(self.integer(lhs) + self.integer(rhs), lhs.width())];
            }
            Step::IntSub { lhs, rhs } => {
                let (l, r) = (self.integer(lhs), self.integer(rhs));
                return vec![low(l.wrapping_sub(r), lhs.width())];
            }
            Step::IntUnsignedDiv { lhs, rhs } => {
                return vec![self.integer(lhs) / self.integer(rhs)];
            }
            Step::IntEqual { lhs, rhs, .. } => {
                return vec![(self.integer(lhs) == self.integer(rhs)) as u128];
            }
            Step::PointerCast { pointer, .. } | Step::PointerCastLike { pointer, .. } => {
                return vec![self.address(pointer) as u128];
            }
            Step::Alloca { .. } | Step::ArrayAlloca { .. } => return vec![self.allocate(32)],
            Step::Load { pointer, width, .. } => {
                let n = (width as u128 + 7) / 8;
                let bytes = self.bytes(self.address(pointer) as u128, n);
                let value = bytes.iter().rev().fold(0, |v, b| v << 8 | *b as u128);
                return vec![low(value, width)];
            }
            Step::Store { pointer, value } => {
                let n = (value.width() as usize + 7) / 8;
                let bytes = self.integer(value).to_le_bytes();
                self.write(self.address(pointer), &bytes[..n]);
            }
            Step::Gep { pointer, index } => {
                return vec![self.address(pointer) as u128 + self.integer(index)];
            }
            Step::CondBranch { condition, then_block, else_block } => {
                let taken = if self.integer(condition) == 1 { then_block } else { else_block };
                self.status = Status::Jumped(taken.step);
            }
            Step::Return { .. } => self.status = Status::Returned,
            Step::GlobalString { global } => {
                let data = contract.globals[global].data.clone();
                let address = self.allocate(data.len());
                self.write(address as usize, &data);
                return vec![address];
            }
            Step::Dispatch { fallback, .. } => {
                self.status = if self.found {
                    Status::Finished(b"found".to_vec())
                } else {
                    Status::Jumped(fallback.step)
                };
            }
            Step::Decode { parameters, .. } => return vec![7; parameters.len()],
            Step::DynamicLength { .. } => return vec![self.dynamic_length],
            Step::EncodeTy { data, offset, dynamic, arg, ty, .. } => {
                let mut word = self.value(arg).to_be_bytes().to_vec();
                word.splice(0..0, vec![0; 16]);
                word.drain(..32 - ty.encoded_fixed_length as usize);
                self.write(self.address(data), &word);
                return vec![
                    self.address(data) as u128 + ty.encoded_fixed_length as u128,
                    self.integer(offset),
                    self.address(dynamic) as u128,
                ];
            }
            _ => {}
        }
        Vec::new()
    }

    /// Runs the steps from number `from` on.
    fn run(&mut self, contract: &Contract, from: usize) {
        for k in from..contract.steps.len() {
            let step = contract.steps[k];
            match self.status {
                Status::Running => {
                    for (part, value) in self.execute(contract, step).into_iter().enumerate() {
                        self.registers.insert((k, part), value);
                    }
                }
                Status::Jumped(target) => {
                    if let Step::PositionAtEnd { block } = step {
                        if block.step == target {
                            self.status = Status::Running;
                        }
                    }
                }
                _ => {}
            }
        }
    }
}

fn source(constructors: usize, fallback: Option<usize>) -> resolver::Contract {
    resolver::Contract {
        name: "c".to_owned(),
        constructors: (0..constructors)
            .map(|_| resolver::Function { params: vec![parameter()] })
            .collect(),
        functions: vec![resolver::Function { params: Vec::new() }],
        fallback,
    }
}

fn parameter() -> resolver::Parameter {
    resolver::Parameter { ty: resolver::Type { index: 0, encoded_fixed_length: 32 } }
}

fn session<'a>(contract: &'a resolver::Contract, ns: &'a resolver::Namespace) -> Contract<'a> {
    let symbols = vec![
        Symbol::StorageStore,
        Symbol::StorageLoad,
        Symbol::GetReturnDataSize,
        Symbol::ReturnDataCopy,
        Symbol::PrintMem,
        Symbol::Create,
        Symbol::Call,
        Symbol::Finish,
        Symbol::Revert,
        Symbol::Malloc,
        Symbol::Bzero8,
        Symbol::Memcpy,
        Symbol::Sha3,
    ];
    Contract::new(contract, ns, "", OptimizationLevel::Off, None, symbols)
}

/// A pointer to what the machine holds at the address.
fn place(c: &mut Contract, m: &mut Machine, width: u32, address: u128) -> PointerOperand {
    m.registers.insert((c.steps.len(), 0), address);
    match c.import(Kind::Pointer(Pointee::Int(width))) {
        Operand::Pointer(p) => p,
        other => panic!("{:?}", other),
    }
}

/// An integer of 32 bits.
fn number(c: &mut Contract, m: &mut Machine, value: u128) -> IntOperand {
    m.registers.insert((c.steps.len(), 0), value);
    match c.import(Kind::Int(32)) {
        Operand::Int(i) => i,
        other => panic!("{:?}", other),
    }
}

fn namespace() -> resolver::Namespace {
    resolver::Namespace { contracts: vec![source(0, None), source(1, None)] }
}

#[test]
fn what_is_written_is_read() {
    for (width, value) in [(1, 1u128), (8, 0x5a), (32, 0x0102_0304), (128, u128::MAX - 5)] {
        let (contract, ns) = (source(0, None), namespace());
        let mut c = session(&contract, &ns);
        let mut m = machine();
        m.write(0x100, &[1; 32]);
        m.write(0x200, &[2; 32]);
        m.write(0x300, &value.to_le_bytes());
        let slot = place(&mut c, &mut m, 256, 0x100);
        let other = place(&mut c, &mut m, 256, 0x200);
        let dest = place(&mut c, &mut m, width, 0x300);
        m.storage.insert(vec![2; 32], vec![0xff; 32]);
        let from = c.steps.len();
        TARGET.set_storage(&mut c, FunctionRef::Enclosing, slot, dest);
        let same = TARGET.get_storage_int(&mut c, FunctionRef::Enclosing, slot, width);
        let another = TARGET.get_storage_int(&mut c, FunctionRef::Enclosing, other, width);
        m.run(&c, from);
        assert_eq!(m.status, Status::Running);
        assert_eq!(m.integer(same), value);
        assert_eq!(m.integer(another), low(u128::MAX, width));
        let mut stored = value.to_le_bytes().to_vec();
        stored.extend([0; 16]);
        assert_eq!(m.storage[&vec![1; 32]], stored);
        assert_eq!(m.storage[&vec![2; 32]], [0xff; 32]);
    }
}

#[test]
fn a_full_word_is_stored_as_it_is() {
    let (contract, ns) = (source(0, None), namespace());
    let mut c = session(&contract, &ns);
    let mut m = machine();
    let word: Vec<u8> = (100..132).collect();
    m.write(0x300, &word);
    let slot = place(&mut c, &mut m, 256, 0x100);
    let dest = place(&mut c, &mut m, 256, 0x300);
    TARGET.set_storage(&mut c, FunctionRef::Enclosing, slot, dest);
    m.run(&c, 2);
    assert_eq!(m.storage[&vec![0xee; 32]], word);
}

#[test]
fn what_is_cleared_reads_as_zero() {
    let (contract, ns) = (source(0, None), namespace());
    let mut c = session(&contract, &ns);
    let mut m = machine();
    m.write(0x200, &[2; 32]);
    m.storage.insert(vec![0xee; 32], vec![9; 32]);
    m.storage.insert(vec![2; 32], vec![3; 32]);
    let slot = place(&mut c, &mut m, 256, 0x100);
    let other = place(&mut c, &mut m, 256, 0x200);
    TARGET.clear_storage(&mut c, FunctionRef::Enclosing, slot);
    let value = TARGET.get_storage_int(&mut c, FunctionRef::Enclosing, slot, 64);
    let kept = TARGET.get_storage_int(&mut c, FunctionRef::Enclosing, other, 16);
    m.run(&c, 2);
    assert_eq!(m.storage[&vec![0xee; 32]], [0; 32]);
    assert_eq!(m.integer(value), 0);
    assert_eq!(m.integer(kept), 0x0303);
}

#[test]
fn a_hash_goes_to_its_place() {
    let (contract, ns) = (source(0, None), namespace());
    let mut c = session(&contract, &ns);
    let mut m = machine();
    m.write(0x100, &[1, 2, 4]);
    let src = place(&mut c, &mut m, 8, 0x100);
    let length = number(&mut c, &mut m, 3);
    let dest = place(&mut c, &mut m, 256, 0x200);
    TARGET.keccak256_hash(&mut c, src, length, dest);
    m.run(&c, 3);
    assert_eq!(m.bytes(0x200, 32), [7; 32]);
    assert_eq!(m.bytes(0x220, 1), [0xee]);
}

#[test]
fn an_execution_ends_as_asked() {
    let (contract, ns) = (source(0, None), namespace());
    for case in 0..3 {
        let mut c = session(&contract, &ns);
        let mut m = machine();
        m.write(0x100, b"data!");
        let data = place(&mut c, &mut m, 8, 0x100);
        let length = number(&mut c, &mut m, 4);
        TARGET.print(&mut c, data, length);
        match case {
            0 => TARGET.return_abi(&mut c, data, length),
            1 => TARGET.return_empty_abi(&mut c),
            _ => TARGET.assert_failure(&mut c, data, length),
        }
        m.run(&c, 2);
        assert_eq!(m.printed, [b"data"]);
        let expected = match case {
            0 => Status::Finished(b"data".to_vec()),
            1 => Status::Finished(Vec::new()),
            _ => Status::Reverted(b"data".to_vec()),
        };
        assert_eq!(m.status, expected);
    }
}

#[test]
fn a_call_gives_its_return_data() {
    let (contract, ns) = (source(0, None), namespace());
    let mut c = session(&contract, &ns);
    let mut m = machine();
    m.reply = (2, b"returned".to_vec());
    m.write(0x100, b"payload");
    m.write(0x200, &[5; 20]);
    let payload = place(&mut c, &mut m, 8, 0x100);
    let length = number(&mut c, &mut m, 7);
    let address = place(&mut c, &mut m, 8, 0x200);
    let status = TARGET.external_call(&mut c, payload, length, address);
    let (data, size) = TARGET.return_data(&mut c);
    m.run(&c, 3);
    assert_eq!(m.status, Status::Running);
    assert_eq!(
        m.messages,
        [Message {
            gas: 0,
            address: vec![5; 20],
            balance: vec![0; 16],
            input: b"payload".to_vec(),
        }]
    );
    assert_eq!(m.integer(status), 2);
    assert_eq!(m.integer(size), 8);
    assert_eq!(m.bytes(m.address(data) as u128, 8), b"returned");
}

#[test]
fn an_encoding_has_its_parts_in_order() {
    for (selector, constant) in [
        (None, None),
        (Some(0xa9b8_c7d6), None),
        (None, Some(b"abcd".to_vec())),
        (Some(0xa9b8_c7d6), Some(b"abc".to_vec())),
        (Some(1), Some(vec![9; 40])),
    ] {
        let (contract, ns) = (source(0, None), namespace());
        let mut c = session(&contract, &ns);
        let mut m = machine();
        m.dynamic_length = 64;
        let arg = Operand::Int(number(&mut c, &mut m, 0x1234));
        let args = [arg, arg];
        let code = place(&mut c, &mut m, 8, 0x100);
        let bytes = constant.clone().unwrap_or(Vec::new());
        m.write(0x100, &bytes);
        let (start, length) = TARGET.encode(
            &mut c,
            selector,
            constant.as_ref().map(|bytes| (code, bytes.len() as u64)),
            false,
            FunctionRef::Enclosing,
            &args,
            &[parameter(), parameter()],
        );
        m.run(&c, 2);
        let mut expected = Vec::new();
        if let Some(selector) = selector {
            let selector: u32 = selector;
            expected.extend(selector.to_be_bytes());
        }
        expected.extend(&bytes);
        for _ in 0..2 {
            expected.extend([0; 30]);
            expected.extend([0x12, 0x34]);
        }
        expected.extend([0; 128]);
        assert_eq!(m.integer(length), expected.len() as u128);
        let start = m.address(start) as u128;
        assert_eq!(m.bytes(start, expected.len() as u128), expected);
        // what is around the encoding is left alone
        assert_eq!(m.bytes(start - 64, 64), [0xee; 64]);
        assert_eq!(m.bytes(start + expected.len() as u128, 64), [0xee; 64]);
    }
}

#[test]
fn a_creation_goes_on_or_reverts() {
    for (status, expected) in [(0, Status::Running), (1, Status::Reverted(Vec::new()))] {
        for number_of_arguments in [0, 1] {
            let (contract, ns) = (source(0, None), namespace());
            let mut c = session(&contract, &ns);
            let mut m = machine();
            m.reply = (status, Vec::new());
            let address = place(&mut c, &mut m, 8, 0x100);
            let arg = Operand::Int(number(&mut c, &mut m, 5));
            TARGET.create_contract(
                &mut c,
                FunctionRef::Enclosing,
                number_of_arguments,
                0,
                address,
                &[arg],
                b"\0asmcode",
            );
            m.run(&c, 2);
            assert_eq!(m.status, expected);
            assert_eq!(m.messages.len(), 1);
            assert_eq!(m.messages[0].balance, [0; 16]);
            let mut input = b"\0asmcode".to_vec();
            if number_of_arguments == 1 {
                input.extend([0; 31]);
                input.push(5);
            }
            assert_eq!(m.messages[0].input, input);
            assert_eq!(m.bytes(0x100, 20) == [0xad; 20], status == 0);
        }
    }
}

fn modules(
    constructors: usize,
    fallback: Option<usize>,
    check: &dyn Fn(&Contract, &Contract),
) {
    let (contract, ns) = (source(constructors, fallback), namespace());
    let library = || vec![Symbol::InitHeap, Symbol::Malloc];
    let build = || EwasmTarget::build_runtime(&contract, &ns, "", OptimizationLevel::Off, library());
    let deployer = EwasmTarget::build(build(), b"the runtime", library());
    check(&build(), &deployer);
}

#[test]
fn a_deployer_returns_the_runtime() {
    for constructors in [0, 1] {
        modules(constructors, None, &|_, deployer| {
            let mut m = machine();
            m.status = Status::Jumped(18);
            m.code = vec![1; 0x4003];
            m.run(deployer, 0);
            assert_eq!(m.status, Status::Finished(b"the runtime".to_vec()));
            let mut called = vec![FunctionRef::Initializer(16)];
            if constructors > 0 {
                called.push(FunctionRef::Constructor(0));
            }
            assert_eq!(m.called, called);
            // what follows the deployed code is three bytes
            assert_eq!(m.registers[&(22, 0)], 3);
            assert_eq!(m.bytes(m.registers[&(25, 0)], 4), [1, 1, 1, 0xee]);
        });
    }
}

#[test]
fn a_deployer_with_too_little_code_traps() {
    modules(0, None, &|_, deployer| {
        let mut m = machine();
        m.status = Status::Jumped(18);
        m.code = vec![1; 0x3fff];
        m.run(deployer, 0);
        assert_eq!(m.status, Status::Trapped);
        assert_eq!(m.registers[&(22, 0)], 0xffff_ffff);
    });
}

#[test]
fn a_runtime_dispatches_on_the_call_data() {
    for (fallback, found, status, called) in [
        (None, true, Status::Finished(b"found".to_vec()), vec![]),
        (None, false, Status::Trapped, vec![]),
        (Some(0), true, Status::Finished(b"found".to_vec()), vec![]),
        (Some(0), false, Status::Returned, vec![FunctionRef::Function(0)]),
    ] {
        modules(0, fallback, &|runtime, _| {
            let mut m = machine();
            m.status = Status::Jumped(17);
            m.call_data = b"selector and arguments".to_vec();
            m.found = found;
            m.run(runtime, 0);
            assert_eq!(m.status, status);
            assert_eq!(m.called, called);
            assert_eq!(m.registers[&(20, 0)], 22);
            assert_eq!(m.bytes(m.registers[&(23, 0)], 22), m.call_data);
        });
    }
}

#[test]
fn host_calls_have_the_declared_arguments() {
    modules(1, Some(0), &|runtime, deployer| {
        for module in [runtime, deployer] {
            let mut declared: HashMap<&str, List<Kind>> = HashMap::new();
            for step in &module.steps {
                match *step {
                    Step::AddFunction { symbol, params, .. } => {
                        assert_eq!(declared.insert(symbol.name(), params), None);
                    }
                    Step::Call { callee: FunctionRef::Symbol(symbol), args, .. } => {
                        let args: Vec<Kind> = args
                            .to_vec()
                            .iter()
                            .map(|arg| match arg {
                                Operand::Int(v) => Kind::Int(v.width()),
                                Operand::Pointer(v) => Kind::Pointer(v.pointee()),
                                Operand::Other(_) => Kind::Other,
                            })
                            .collect();
                        if let Some(params) = declared.get(symbol.name()) {
                            assert_eq!(params.to_vec(), args);
                        }
                    }
                    _ => {}
                }
            }
            assert_eq!(declared.len(), 14);
        }
        // the deployer exports all of them but one
        for step in &deployer.steps {
            if let Step::AddFunction { symbol, .. } = step {
                let exported = deployer.exports.contains(&symbol.name());
                assert_eq!(exported, *symbol != Symbol::CodeCopy);
            }
        }
    });
}

#[test]
fn what_comes_before_the_arguments_is_a_prefix() {
    let encoding = |selector: Option<u32>, constant: Option<Vec<u8>>| {
        let (contract, ns) = (source(0, None), namespace());
        let mut c = session(&contract, &ns);
        let mut m = machine();
        m.dynamic_length = 32;
        let args = [Operand::Int(number(&mut c, &mut m, 77)); 3];
        let code = place(&mut c, &mut m, 8, 0x100);
        if let Some(bytes) = &constant {
            m.write(0x100, bytes);
        }
        let (start, length) = TARGET.encode(
            &mut c,
            selector,
            constant.map(|bytes| (code, bytes.len() as u64)),
            true,
            FunctionRef::Enclosing,
            &args,
            &[parameter(), parameter(), parameter()],
        );
        m.run(&c, 2);
        m.bytes(m.address(start) as u128, m.integer(length))
    };
    let bare = encoding(None, None);
    assert_eq!(bare.len(), 192);
    assert_eq!(bare[31], 77);
    let selected = encoding(Some(0x1234_5678), None);
    assert_eq!(selected, [&[0x12, 0x34, 0x56, 0x78], &bare[..]].concat());
    for length in [0, 1, 7, 8, 9, 100] {
        let bytes: Vec<u8> = (1..=length).collect();
        let prefixed = encoding(None, Some(bytes.clone()));
        assert_eq!(prefixed, [&bytes[..], &bare[..]].concat());
        let both = encoding(Some(0x1234_5678), Some(bytes.clone()));
        assert_eq!(both, [&[0x12, 0x34, 0x56, 0x78], &bytes[..], &bare[..]].concat());
    }
}

#[test]
fn arguments_of_any_size_have_a_prefix() {
    // each argument writes all of its bytes
    for size in [1, 4, 5, 7, 8, 12, 13, 31] {
        let ty = resolver::Type { index: 0, encoded_fixed_length: size };
        let encoding = |selector: Option<u32>, constant: Option<Vec<u8>>| {
            let (contract, ns) = (source(0, None), namespace());
            let mut c = session(&contract, &ns);
            let mut m = machine();
            let args = [Operand::Int(number(&mut c, &mut m, 200)); 3];
            let code = place(&mut c, &mut m, 8, 0x100);
            if let Some(bytes) = &constant {
                m.write(0x100, bytes);
            }
            let (start, length) = TARGET.encode(
                &mut c,
                selector,
                constant.map(|bytes| (code, bytes.len() as u64)),
                false,
                FunctionRef::Enclosing,
                &args,
                &[resolver::Parameter { ty }; 3],
            );
            m.run(&c, 2);
            // at most four bytes past the end are zeroed
            let end = m.address(start) as u128 + m.integer(length);
            assert_eq!(m.bytes(end + 4, 16), [0xee; 16]);
            m.bytes(m.address(start) as u128, m.integer(length))
        };
        let bare = encoding(None, None);
        let mut expected = vec![0; size as usize - 1];
        expected.push(200);
        assert_eq!(bare, expected.repeat(3));
        let selected = encoding(Some(0x1234_5678), None);
        assert_eq!(selected, [&[0x12, 0x34, 0x56, 0x78], &bare[..]].concat());
        for length in [1, 8, 13] {
            let bytes: Vec<u8> = (1..=length).collect();
            let prefixed = encoding(None, Some(bytes.clone()));
            assert_eq!(prefixed, [&bytes[..], &bare[..]].concat());
        }
    }
}
