//! Steps carried out on LLVM modules.
use ewasm_emit::contract::{Contract, OptimizationLevel};
use ewasm_emit::emitter::{has_kind, is_request, EmitError, Emitter, Progress};
use ewasm_emit::ethabiencoder::EthAbiEncoder;
use ewasm_emit::ewasm::EwasmTarget;
use ewasm_emit::ir::{
    FunctionRef, IntOperand, Kind, Operand, Pointee, PointerOperand, Step, Symbol,
};
use ewasm_emit::resolver;
use inkwell::attributes::AttributeLoc;
use inkwell::context::Context;
use inkwell::module::Module;
use inkwell::types::{BasicMetadataTypeEnum, BasicType};
use inkwell::values::{BasicValueEnum, FunctionValue};
use inkwell::AddressSpace;

const TARGET: EwasmTarget = EwasmTarget { abi: EthAbiEncoder {} };

fn source(constructors: usize) -> resolver::Contract {
    resolver::Contract {
        name: "c".to_owned(),
        constructors: (0..constructors)
            .map(|_| resolver::Function {
                params: vec![resolver::Parameter {
                    ty: resolver::Type { index: 0, encoded_fixed_length: 32 },
                }],
            })
            .collect(),
        functions: vec![resolver::Function { params: Vec::new() }],
        fallback: Some(0),
    }
}

fn namespace() -> resolver::Namespace {
    resolver::Namespace { contracts: Vec::new() }
}

fn symbols() -> Vec<Symbol> {
    vec![
        Symbol::StorageStore,
        Symbol::StorageLoad,
        Symbol::GetReturnDataSize,
        Symbol::ReturnDataCopy,
        Symbol::PrintMem,
        Symbol::Create,
        Symbol::Call,
        Symbol::Finish,
        Symbol::Revert,
        Symbol::Malloc,
        Symbol::Bzero8,
        Symbol::Memcpy,
        Symbol::Sha3,
    ]
}

/// A module with the functions that the fragments call.
fn library<'ctx>(context: &'ctx Context) -> Module<'ctx> {
    let module = context.create_module("m");
    let p: BasicMetadataTypeEnum = context.i8_type().ptr_type(AddressSpace::default()).into();
    let i: BasicMetadataTypeEnum = context.i32_type().into();
    let g: BasicMetadataTypeEnum = context.i64_type().into();
    let void = context.void_type();
    module.add_function("storageStore", void.fn_type(&[p, p], false), None);
    module.add_function("storageLoad", void.fn_type(&[p, p], false), None);
    module.add_function("getReturnDataSize", context.i32_type().fn_type(&[], false), None);
    module.add_function("returnDataCopy", void.fn_type(&[p, i, i], false), None);
    module.add_function("printMem", void.fn_type(&[p, i], false), None);
    module.add_function("create", context.i32_type().fn_type(&[p, p, i, p], false), None);
    module.add_function("call", context.i32_type().fn_type(&[g, p, p, p, i], false), None);
    module.add_function("finish", void.fn_type(&[p, i], false), None);
    module.add_function("revert", void.fn_type(&[p, i], false), None);
    let bytes = context.i8_type().ptr_type(AddressSpace::default());
    module.add_function("__malloc", bytes.fn_type(&[i], false), None);
    module.add_function("__bzero8", void.fn_type(&[p, i], false), None);
    module.add_function("__memcpy", void.fn_type(&[p, p, i], false), None);
    module.add_function("sha3", void.fn_type(&[p, i, p, i], false), None);
    module
}

/// An emitter whose builder stands in a new function with these parameters.
fn emitter<'ctx>(
    context: &'ctx Context,
    params: &[BasicMetadataTypeEnum<'ctx>],
) -> (Emitter<'ctx>, FunctionValue<'ctx>) {
    let module = library(context);
    let function = module.add_function("f", context.i32_type().fn_type(params, false), None);
    let builder = context.create_builder();
    builder.position_at_end(context.append_basic_block(function, "start"));
    let mut emitter = Emitter::new(context, module, builder);
    emitter.enclosing = Some(function);
    (emitter, function)
}

/// Hands in the values of `Import` steps and carries out the rest.
fn finish<'ctx>(
    emitter: &mut Emitter<'ctx>,
    contract: &Contract,
    imports: &[BasicValueEnum<'ctx>],
) {
    for (k, value) in imports.iter().enumerate() {
        assert_eq!(emitter.replay(contract), Ok(Progress::Request(k)));
        assert_eq!(emitter.supply(contract, vec![*value]), Ok(()));
    }
    assert_eq!(emitter.replay(contract), Ok(Progress::Done));
}

/// The instructions of `f`.
fn body(emitter: &Emitter) -> Vec<String> {
    let text = emitter.module.print_to_string().to_string();
    let start = text.find("define i32 @f(").unwrap();
    let text = &text[start..];
    let end = text.find("\n}").unwrap();
    text[..end]
        .lines()
        .skip(1)
        .filter(|line| !line.is_empty())
        .map(|line| line.split(';').next().unwrap().trim().to_owned())
        .collect()
}

fn session<'a>(contract: &'a resolver::Contract, ns: &'a resolver::Namespace) -> Contract<'a> {
    Contract::new(contract, ns, "", OptimizationLevel::Default, None, symbols())
}

fn pointer(contract: &mut Contract, width: u32) -> PointerOperand {
    match contract.import(Kind::Pointer(Pointee::Int(width))) {
        Operand::Pointer(p) => p,
        other => panic!("{:?}", other),
    }
}

fn integer(contract: &mut Contract, width: u32) -> IntOperand {
    match contract.import(Kind::Int(width)) {
        Operand::Int(i) => i,
        other => panic!("{:?}", other),
    }
}

fn params<'ctx>(context: &'ctx Context, kinds: &[Kind]) -> Vec<BasicMetadataTypeEnum<'ctx>> {
    kinds
        .iter()
        .map(|kind| match kind {
            Kind::Int(width) => context.custom_width_int_type(*width).into(),
            Kind::Pointer(Pointee::Int(width)) => {
                context.custom_width_int_type(*width).ptr_type(AddressSpace::default()).into()
            }
            other => panic!("{:?}", other),
        })
        .collect()
}

#[test]
fn clear_storage_on_llvm() {
    let context = Context::create();
    let (contract, ns) = (source(0), namespace());
    let mut c = session(&contract, &ns);
    let slot = pointer(&mut c, 256);
    TARGET.clear_storage(&mut c, FunctionRef::Enclosing, slot);
    let (mut e, f) = emitter(&context, &params(&context, &[Kind::Pointer(Pointee::Int(256))]));
    finish(&mut e, &c, &[f.get_nth_param(0).unwrap()]);
    assert_eq!(
        body(&e),
        [
            "start:",
            "%value = alloca i256, align 8",
            "%value8 = bitcast i256* %value to i8*",
            "call void @__bzero8(i8* %value8, i32 4)",
            "%1 = bitcast i256* %0 to i8*",
            "call void @storageStore(i8* %1, i8* %value8)",
        ]
    );
}

#[test]
fn set_storage_of_a_word_on_llvm() {
    let context = Context::create();
    let (contract, ns) = (source(0), namespace());
    let mut c = session(&contract, &ns);
    let slot = pointer(&mut c, 256);
    let dest = pointer(&mut c, 256);
    TARGET.set_storage(&mut c, FunctionRef::Enclosing, slot, dest);
    let word = Kind::Pointer(Pointee::Int(256));
    let (mut e, f) = emitter(&context, &params(&context, &[word, word]));
    finish(&mut e, &c, &f.get_params());
    assert_eq!(
        body(&e),
        [
            "start:",
            "%2 = bitcast i256* %0 to i8*",
            "%3 = bitcast i256* %1 to i8*",
            "call void @storageStore(i8* %2, i8* %3)",
        ]
    );
}

#[test]
fn set_and_get_storage_on_llvm() {
    let context = Context::create();
    let (contract, ns) = (source(0), namespace());
    let mut c = session(&contract, &ns);
    let slot = pointer(&mut c, 256);
    let dest = pointer(&mut c, 64);
    TARGET.set_storage(&mut c, FunctionRef::Enclosing, slot, dest);
    TARGET.get_storage_int(&mut c, FunctionRef::Enclosing, slot, 64);
    let kinds = [Kind::Pointer(Pointee::Int(256)), Kind::Pointer(Pointee::Int(64))];
    let (mut e, f) = emitter(&context, &params(&context, &kinds));
    finish(&mut e, &c, &f.get_params());
    assert_eq!(
        body(&e),
        [
            "start:",
            "%value = alloca i256, align 8",
            "%value8 = bitcast i256* %value to i8*",
            "call void @__bzero8(i8* %value8, i32 4)",
            "%value1 = load i64, i64* %1, align 4",
            "%2 = bitcast i256* %value to i64*",
            "store i64 %value1, i64* %2, align 4",
            "%3 = bitcast i256* %0 to i8*",
            "call void @storageStore(i8* %3, i8* %value8)",
            "%buf = alloca i8, i32 32, align 1",
            "%4 = bitcast i256* %0 to i8*",
            "call void @storageLoad(i8* %4, i8* %buf)",
            "%5 = bitcast i8* %buf to i64*",
            "%loaded_int = load i64, i64* %5, align 4",
        ]
    );
    // the value that the last step yielded is the loaded integer
    let loaded = e.values.last().unwrap()[0].into_int_value();
    assert_eq!(loaded.get_name().to_str(), Ok("loaded_int"));
    assert_eq!(loaded.get_type().get_bit_width(), 64);
}

#[test]
fn keccak256_hash_on_llvm() {
    let context = Context::create();
    let (contract, ns) = (source(0), namespace());
    let mut c = session(&contract, &ns);
    let src = pointer(&mut c, 256);
    let length = integer(&mut c, 32);
    let dest = pointer(&mut c, 256);
    TARGET.keccak256_hash(&mut c, src, length, dest);
    let word = Kind::Pointer(Pointee::Int(256));
    let (mut e, f) = emitter(&context, &params(&context, &[word, Kind::Int(32), word]));
    finish(&mut e, &c, &f.get_params());
    assert_eq!(
        body(&e),
        [
            "start:",
            "%src = bitcast i256* %0 to i8*",
            "%dest = bitcast i256* %2 to i8*",
            "call void @sha3(i8* %src, i32 %1, i8* %dest, i32 32)",
        ]
    );
}

#[test]
fn ends_and_prints_on_llvm() {
    let context = Context::create();
    let (contract, ns) = (source(0), namespace());
    let bytes = Kind::Pointer(Pointee::Int(8));
    let kinds = [bytes, Kind::Int(32)];
    let mut c = session(&contract, &ns);
    let data = pointer(&mut c, 8);
    let length = integer(&mut c, 32);
    TARGET.print(&mut c, data, length);
    TARGET.return_abi(&mut c, data, length);
    let (mut e, f) = emitter(&context, &params(&context, &kinds));
    finish(&mut e, &c, &f.get_params());
    assert_eq!(
        body(&e),
        [
            "start:",
            "call void @printMem(i8* %0, i32 %1)",
            "call void @finish(i8* %0, i32 %1)",
            "ret i32 0",
        ]
    );
    assert!(e.module.verify().is_ok());
    let mut c = session(&contract, &ns);
    TARGET.return_empty_abi(&mut c);
    let (mut e, _) = emitter(&context, &[]);
    finish(&mut e, &c, &[]);
    assert_eq!(body(&e), ["start:", "call void @finish(i8* null, i32 0)", "ret i32 0"]);
    let mut c = session(&contract, &ns);
    let data = pointer(&mut c, 8);
    let length = integer(&mut c, 32);
    TARGET.assert_failure(&mut c, data, length);
    let (mut e, f) = emitter(&context, &params(&context, &kinds));
    finish(&mut e, &c, &f.get_params());
    assert_eq!(
        body(&e),
        ["start:", "call void @revert(i8* %0, i32 %1)", "unreachable"]
    );
    assert!(e.module.verify().is_ok());
}

#[test]
fn return_data_on_llvm() {
    let context = Context::create();
    let (contract, ns) = (source(0), namespace());
    let mut c = session(&contract, &ns);
    TARGET.return_data(&mut c);
    let (mut e, _) = emitter(&context, &[]);
    finish(&mut e, &c, &[]);
    assert_eq!(
        body(&e),
        [
            "start:",
            "%returndatasize = call i32 @getReturnDataSize()",
            "%0 = call i8* @__malloc(i32 %returndatasize)",
            "call void @returnDataCopy(i8* %0, i32 0, i32 %returndatasize)",
        ]
    );
}

#[test]
fn a_call_and_a_creation_on_llvm() {
    let context = Context::create();
    let contract = source(0);
    let ns = resolver::Namespace {
        contracts: vec![resolver::Contract {
            name: "made".to_owned(),
            constructors: Vec::new(),
            functions: Vec::new(),
            fallback: None,
        }],
    };
    let bytes = Kind::Pointer(Pointee::Int(8));
    let mut c = session(&contract, &ns);
    let payload = pointer(&mut c, 8);
    let length = integer(&mut c, 32);
    let address = pointer(&mut c, 8);
    TARGET.external_call(&mut c, payload, length, address);
    TARGET.create_contract(&mut c, FunctionRef::Enclosing, 0, 0, address, &[], b"wasm");
    let (mut e, f) = emitter(&context, &params(&context, &[bytes, Kind::Int(32), bytes]));
    for (k, value) in f.get_params().iter().enumerate() {
        assert_eq!(e.replay(&c), Ok(Progress::Request(k)));
        assert_eq!(e.supply(&c, vec![*value]), Ok(()));
    }
    // what the compiler carries out yields the first parameter here
    let mut asked = Vec::new();
    while let Ok(Progress::Request(k)) = e.replay(&c) {
        asked.push(c.steps[k]);
        assert!(is_request(c.steps[k]));
        assert_eq!(e.supply(&c, vec![f.get_nth_param(0).unwrap()]), Ok(()));
    }
    assert_eq!(e.replay(&c), Ok(Progress::Done));
    assert_eq!(e.values.len(), c.steps.len());
    assert!(matches!(asked[0], Step::GlobalString { global: 0 }));
    assert!(matches!(asked[1], Step::GlobalString { global: 1 }));
    assert!(matches!(asked[2], Step::Gep { .. }));
    assert!(matches!(asked[3], Step::Gep { .. }));
    assert!(matches!(asked[4], Step::GlobalString { global: 2 }));
    assert_eq!(asked.len(), 5);
    assert_eq!(
        body(&e),
        [
            "start:",
            "%3 = call i32 @call(i64 0, i8* %2, i8* %0, i8* %0, i32 %1)",
            "%4 = call i8* @__malloc(i32 4)",
            "call void @__memcpy(i8* %4, i8* %0, i32 4)",
            "call void @__bzero8(i8* %0, i32 0)",
            "%5 = call i32 @create(i8* %0, i8* %4, i32 4, i8* %2)",
            "%success = icmp eq i32 %5, 0",
            "br i1 %success, label %success1, label %bail",
            "success1:",
            "bail:",
            "call void @revert(i8* null, i32 0)",
            "unreachable",
        ]
    );
}

#[test]
fn an_encoding_on_llvm() {
    let context = Context::create();
    let (contract, ns) = (source(0), namespace());
    let spec = [resolver::Parameter {
        ty: resolver::Type { index: 0, encoded_fixed_length: 32 },
    }];
    let mut c = session(&contract, &ns);
    let bytes = Kind::Pointer(Pointee::Int(8));
    let arg = c.import(Kind::Int(32));
    let other = pointer(&mut c, 8);
    TARGET.encode(
        &mut c,
        Some(0x0102_0304),
        Some((other, 3)),
        false,
        FunctionRef::Enclosing,
        &[arg],
        &spec,
    );
    let (mut e, f) = emitter(&context, &params(&context, &[Kind::Int(32), bytes]));
    let (number, place) = (f.get_nth_param(0).unwrap(), f.get_nth_param(1).unwrap());
    loop {
        match e.replay(&c) {
            Ok(Progress::Done) => break,
            Ok(Progress::Request(k)) => {
                let reply = match c.steps[k] {
                    Step::Import { kind: Kind::Int(32) } => vec![number],
                    Step::DynamicLength { .. } => vec![number],
                    Step::EncodeTy { .. } => vec![place, number, place],
                    _ => vec![place],
                };
                assert_eq!(e.supply(&c, reply), Ok(()));
            }
            Err(error) => panic!("{:?}", error),
        }
    }
    assert_eq!(
        body(&e),
        [
            "start:",
            "%2 = add i32 32, %0",
            "%3 = add i32 %2, 4",
            "%4 = add i32 %3, 3",
            "%5 = call i8* @__malloc(i32 %4)",
            "%6 = bitcast i8* %5 to i32*",
            "store i32 67305985, i32* %6, align 4",
            "call void @__memcpy(i8* %1, i8* %1, i32 3)",
            "%7 = udiv i32 %3, 8",
            "call void @__bzero8(i8* %1, i32 %7)",
        ]
    );
    assert_eq!(67305985, 0x0403_0201);
}

#[test]
fn the_modules_on_llvm() {
    let context = Context::create();
    let (contract, ns) = (source(1), namespace());
    let library = || {
        let module = context.create_module("m");
        let void = context.void_type();
        let bytes = context.i8_type().ptr_type(AddressSpace::default());
        module.add_function("__init_heap", void.fn_type(&[], false), None);
        module.add_function("__malloc", bytes.fn_type(&[context.i32_type().into()], false), None);
        module
    };
    let symbols = || vec![Symbol::InitHeap, Symbol::Malloc];
    let runtime = EwasmTarget::build_runtime(
        &contract,
        &ns,
        "",
        OptimizationLevel::Default,
        symbols(),
    );
    let mut e = Emitter::new(&context, library(), context.create_builder());
    assert_eq!(e.replay(&runtime), Ok(Progress::Request(15)));
    let text = e.module.print_to_string().to_string();
    for line in [
        "declare void @storageStore(i8*, i8*)",
        "declare void @storageLoad(i8*, i8*)",
        "declare i32 @getCallDataSize()",
        "declare i32 @getCodeSize()",
        "declare i32 @getReturnDataSize()",
        "declare void @callDataCopy(i8*, i32, i32)",
        "declare void @codeCopy(i8*, i32, i32)",
        "declare void @returnDataCopy(i8*, i32, i32)",
        "declare void @printMem(i8*, i32)",
        "declare i32 @create(i8*, i8*, i32, i8*)",
        "declare i32 @call(i64, i8*, i8*, i8*, i32)",
        "; Function Attrs: noreturn\ndeclare void @finish(i8*, i32) #0",
        "; Function Attrs: noreturn\ndeclare void @revert(i8*, i32) #0",
    ] {
        assert!(text.contains(line), "{}", line);
    }
    assert_eq!(text.matches("Function Attrs").count(), 2);
    // the compiler emits the contract's only function
    let own = e.module.add_function("own", context.void_type().fn_type(&[], false), None);
    e.functions.push(own);
    assert_eq!(e.supply(&runtime, vec![]), Ok(()));
    assert_eq!(e.replay(&runtime), Ok(Progress::Request(25)));
    assert!(matches!(runtime.steps[25], Step::Dispatch { .. }));
    assert_eq!(e.supply(&runtime, vec![]), Ok(()));
    assert_eq!(e.replay(&runtime), Ok(Progress::Request(29)));
    assert_eq!(e.supply(&runtime, vec![]), Ok(()));
    assert_eq!(e.replay(&runtime), Ok(Progress::Request(30)));
    assert_eq!(e.supply(&runtime, vec![]), Ok(()));
    assert_eq!(e.replay(&runtime), Ok(Progress::Done));
    let text = e.module.print_to_string().to_string();
    let main = &text[text.find("define void @main()").unwrap()..];
    let main: Vec<&str> = main.lines().map(|l| l.split(';').next().unwrap().trim()).collect();
    assert_eq!(
        main[..11],
        [
            "define void @main() {",
            "entry:",
            "call void @__init_heap()",
            "%calldatasize = call i32 @getCallDataSize()",
            "%0 = call i8* @__malloc(i32 %calldatasize)",
            "call void @callDataCopy(i8* %0, i32 0, i32 %calldatasize)",
            "%1 = bitcast i8* %0 to i32*",
            "",
            "fallback:",
            "call void @own()",
            "ret i32 0",
        ]
    );

    let deployer = EwasmTarget::build(runtime, b"\x01\x02\x03", symbols());
    let mut e = Emitter::new(&context, library(), context.create_builder());
    assert_eq!(e.replay(&deployer), Ok(Progress::Request(15)));
    let ty = context.void_type().fn_type(&[context.i32_type().into()], false);
    e.constructors.push(e.module.add_function("constructor", ty, None));
    assert_eq!(e.supply(&deployer, vec![]), Ok(()));
    assert_eq!(e.replay(&deployer), Ok(Progress::Request(16)));
    assert!(matches!(deployer.steps[16], Step::EmitInitializer));
    let ty = context.void_type().fn_type(&[], false);
    e.initializer = Some(e.module.add_function("initializer", ty, None));
    assert_eq!(e.supply(&deployer, vec![]), Ok(()));
    assert_eq!(e.replay(&deployer), Ok(Progress::Request(27)));
    assert!(matches!(deployer.steps[27], Step::Decode { .. }));
    let seven = context.i32_type().const_int(7, false);
    assert_eq!(e.supply(&deployer, vec![seven.into()]), Ok(()));
    assert_eq!(e.replay(&deployer), Ok(Progress::Request(29)));
    let null = context.i8_type().ptr_type(AddressSpace::default()).const_null();
    assert_eq!(e.supply(&deployer, vec![null.into()]), Ok(()));
    assert_eq!(e.replay(&deployer), Ok(Progress::Request(32)));
    let text = e.module.print_to_string().to_string();
    let main = &text[text.find("define void @main()").unwrap()..];
    let main: Vec<&str> = main.lines().map(|l| l.trim()).collect();
    assert_eq!(
        main[..12],
        [
            "define void @main() {",
            "entry:",
            "call void @__init_heap()",
            "%codesize = call i32 @getCodeSize()",
            "%0 = sub i32 %codesize, 16384",
            "%1 = call i8* @__malloc(i32 %0)",
            "call void @codeCopy(i8* %1, i32 16384, i32 %0)",
            "%2 = bitcast i8* %1 to i32*",
            "call void @initializer()",
            "call void @constructor(i32 7)",
            "call void @finish(i8* null, i32 3)",
            "unreachable",
        ]
    );
}

#[test]
fn an_unpositioned_builder_is_reported() {
    let context = Context::create();
    let (contract, ns) = (source(0), namespace());
    let mut c = session(&contract, &ns);
    TARGET.return_empty_abi(&mut c);
    let mut e = Emitter::new(&context, library(&context), context.create_builder());
    assert_eq!(e.replay(&c), Err(EmitError::Unpositioned));
    assert!(e.values.is_empty());
}

#[test]
fn a_missing_function_is_reported() {
    let context = Context::create();
    let (contract, ns) = (source(0), namespace());
    let mut c = session(&contract, &ns);
    TARGET.return_empty_abi(&mut c);
    let module = context.create_module("m");
    let function = module.add_function("f", context.i32_type().fn_type(&[], false), None);
    let builder = context.create_builder();
    builder.position_at_end(context.append_basic_block(function, "start"));
    let mut e = Emitter::new(&context, module, builder);
    assert_eq!(
        e.replay(&c),
        Err(EmitError::MissingFunction(FunctionRef::Symbol(Symbol::Finish)))
    );
    // once it is there, the steps go on
    let void = context.void_type();
    let p = context.i8_type().ptr_type(AddressSpace::default());
    let ty = void.fn_type(&[p.into(), context.i32_type().into()], false);
    e.module.add_function("finish", ty, None);
    assert_eq!(e.replay(&c), Ok(Progress::Done));
    assert_eq!(body(&e), ["start:", "call void @finish(i8* null, i32 0)", "ret i32 0"]);
}

#[test]
fn a_missing_enclosing_function_is_reported() {
    let context = Context::create();
    let contract = source(0);
    let ns = resolver::Namespace { contracts: vec![source(0)] };
    let mut c = session(&contract, &ns);
    let address = pointer(&mut c, 8);
    TARGET.create_contract(&mut c, FunctionRef::Enclosing, 0, 0, address, &[], b"");
    let bytes = Kind::Pointer(Pointee::Int(8));
    let (mut e, f) = emitter(&context, &params(&context, &[bytes]));
    e.enclosing = None;
    let result = loop {
        match e.replay(&c) {
            Ok(Progress::Request(_)) => {
                assert_eq!(e.supply(&c, vec![f.get_nth_param(0).unwrap()]), Ok(()));
            }
            other => break other,
        }
    };
    assert_eq!(result, Err(EmitError::MissingFunction(FunctionRef::Enclosing)));
    assert!(matches!(c.steps[e.values.len()], Step::AppendBlock { name: "success", .. }));
}

#[test]
fn an_unexpected_result_is_reported() {
    let context = Context::create();
    let (contract, ns) = (source(0), namespace());
    let mut c = session(&contract, &ns);
    TARGET.return_data(&mut c);
    let module = context.create_module("m");
    let i64s = context.i64_type().fn_type(&[], false);
    module.add_function("getReturnDataSize", i64s, None);
    let function = module.add_function("f", context.i32_type().fn_type(&[], false), None);
    let builder = context.create_builder();
    builder.position_at_end(context.append_basic_block(function, "start"));
    let mut e = Emitter::new(&context, module, builder);
    assert_eq!(e.replay(&c), Err(EmitError::UnexpectedResult));
    // the call was made
    assert_eq!(body(&e), ["start:", "%returndatasize = call i64 @getReturnDataSize()"]);
    let (mut e, _) = emitter(&context, &[]);
    // a function that returns nothing where an integer is needed
    let present = e.module.get_function("getReturnDataSize").unwrap();
    present.as_global_value().set_name("other");
    e.module.add_function("getReturnDataSize", context.void_type().fn_type(&[], false), None);
    let size = FunctionRef::Symbol(Symbol::GetReturnDataSize);
    assert_eq!(e.replay(&c), Err(EmitError::NoResult(size)));
    // it was not called
    assert_eq!(body(&e), ["start:"]);
}

#[test]
fn a_reply_has_to_fit() {
    let context = Context::create();
    let (contract, ns) = (source(0), namespace());
    let mut c = session(&contract, &ns);
    pointer(&mut c, 8);
    c.import(Kind::Pointer(Pointee::Other));
    c.import(Kind::Other);
    let bytes = Kind::Pointer(Pointee::Int(8));
    let (mut e, f) = emitter(&context, &params(&context, &[bytes, Kind::Int(32)]));
    let (p, i) = (f.get_nth_param(0).unwrap(), f.get_nth_param(1).unwrap());
    let pp = p.get_type().ptr_type(AddressSpace::default()).const_null();
    assert_eq!(e.replay(&c), Ok(Progress::Request(0)));
    assert_eq!(e.supply(&c, vec![]), Err(EmitError::UnexpectedReply));
    assert_eq!(e.supply(&c, vec![i]), Err(EmitError::UnexpectedReply));
    assert_eq!(e.supply(&c, vec![pp.into()]), Err(EmitError::UnexpectedReply));
    assert_eq!(e.supply(&c, vec![p, p]), Err(EmitError::UnexpectedReply));
    assert!(e.values.is_empty());
    assert_eq!(e.supply(&c, vec![p]), Ok(()));
    // any pointer is one of the kind that does not say to what
    assert_eq!(e.supply(&c, vec![i]), Err(EmitError::UnexpectedReply));
    assert_eq!(e.supply(&c, vec![pp.into()]), Ok(()));
    // any value is of the kind that says nothing
    assert_eq!(e.supply(&c, vec![i]), Ok(()));
    // nothing is left to reply to
    assert_eq!(e.supply(&c, vec![]), Err(EmitError::UnexpectedReply));
    assert_eq!(e.replay(&c), Ok(Progress::Done));
    // a step that LLVM carries out takes no reply
    TARGET.return_empty_abi(&mut c);
    assert_eq!(e.supply(&c, vec![]), Err(EmitError::UnexpectedReply));
    assert_eq!(e.replay(&c), Ok(Progress::Done));
}

#[test]
fn values_have_kinds() {
    let context = Context::create();
    let i8s = context.i8_type();
    let bytes = i8s.ptr_type(AddressSpace::default());
    let byte_pointers = bytes.ptr_type(AddressSpace::default());
    let far = i8s.ptr_type(AddressSpace::from(3));
    let values: [BasicValueEnum; 6] = [
        i8s.const_int(1, false).into(),
        context.custom_width_int_type(256).const_zero().into(),
        bytes.const_null().into(),
        far.const_null().into(),
        byte_pointers.const_null().into(),
        context.f64_type().const_float(1.5).into(),
    ];
    for (kind, expected) in [
        (Kind::Int(8), [true, false, false, false, false, false]),
        (Kind::Int(256), [false, true, false, false, false, false]),
        (Kind::Pointer(Pointee::Int(8)), [false, false, true, true, false, false]),
        (Kind::Pointer(Pointee::Int(16)), [false; 6]),
        (Kind::Pointer(Pointee::Other), [false, false, true, true, true, false]),
        (Kind::Other, [true; 6]),
    ] {
        assert_eq!(values.map(|value| has_kind(value, kind)), expected);
    }
}

#[test]
fn what_steps_yielded_can_be_asked_for() {
    let context = Context::create();
    let contract = source(0);
    let ns = resolver::Namespace { contracts: vec![source(0)] };
    let mut c = session(&contract, &ns);
    let address = pointer(&mut c, 8);
    let (data, length) = TARGET.return_data(&mut c);
    TARGET.create_contract(&mut c, FunctionRef::Enclosing, 0, 0, address, &[], b"");
    let bytes = Kind::Pointer(Pointee::Int(8));
    let (mut e, f) = emitter(&context, &params(&context, &[bytes]));
    let first = f.get_nth_param(0).unwrap();
    while let Ok(Progress::Request(_)) = e.replay(&c) {
        assert_eq!(e.supply(&c, vec![first]), Ok(()));
    }
    assert_eq!(e.pointer_value(address, &c), first);
    let size = e.int_value(length, &c).into_int_value();
    assert_eq!(size.get_name().to_str(), Ok("returndatasize"));
    assert_eq!(e.operand(Operand::Int(length), &c), e.int_value(length, &c));
    assert_eq!(e.operand(Operand::Pointer(data), &c), e.pointer_value(data, &c));
    let seven = IntOperand::Const { width: 16, value: 0x1_0007 };
    let seven = e.int_value(seven, &c).into_int_value();
    assert_eq!(seven.get_zero_extended_constant(), Some(7));
    assert_eq!(seven.get_type().get_bit_width(), 16);
    let null = PointerOperand::Null { pointee: Pointee::Int(64) };
    let null = e.pointer_value(null, &c);
    assert!(null.into_pointer_value().is_null());
    assert!(has_kind(null, Kind::Pointer(Pointee::Int(64))));
    assert_eq!(e.find(FunctionRef::Enclosing), Some(f));
    assert_eq!(e.find(FunctionRef::Symbol(Symbol::Sha3)), e.module.get_function("sha3"));
    assert_eq!(e.find(FunctionRef::Symbol(Symbol::Main)), None);
    assert_eq!(e.find(FunctionRef::Function(0)), None);
    assert_eq!(e.find(FunctionRef::Constructor(0)), None);
    assert_eq!(e.find(FunctionRef::Initializer(0)), None);
    let last = c.steps.len() - 1;
    match c.steps[last] {
        Step::PositionAtEnd { block } => {
            assert_eq!(e.block(block, &c).get_name().to_str(), Ok("success1"));
            assert_eq!(e.block(block, &c).get_parent(), Some(f));
        }
        other => panic!("{:?}", other),
    }
}

#[test]
fn a_taken_name_leaves_what_has_it_alone() {
    let context = Context::create();
    let (contract, ns) = (source(0), namespace());
    let symbols = vec![Symbol::InitHeap, Symbol::Malloc];
    let runtime =
        EwasmTarget::build_runtime(&contract, &ns, "", OptimizationLevel::Default, symbols);
    // with free names, every declared function is found
    let mut e = Emitter::new(&context, context.create_module("m"), context.create_builder());
    assert_eq!(e.replay(&runtime), Ok(Progress::Request(15)));
    for step in &runtime.steps[..15] {
        if let Step::AddFunction { symbol, .. } = step {
            assert!(e.find(FunctionRef::Symbol(*symbol)).is_some());
        }
    }
    // a global and a function have the names of host functions; what is declared is marked,
    // and what was there is left alone
    let module = context.create_module("m");
    module.add_global(context.i32_type(), None, "finish");
    let older = module.add_function("revert", context.void_type().fn_type(&[], false), None);
    let mut e = Emitter::new(&context, module, context.create_builder());
    assert_eq!(e.replay(&runtime), Ok(Progress::Request(15)));
    assert_eq!(older.count_attributes(AttributeLoc::Function), 0);
    for step in [11, 13] {
        let added = e.added[step].unwrap();
        assert_eq!(added.count_attributes(AttributeLoc::Function), 1);
        assert_eq!(e.find(FunctionRef::Added(step)), Some(added));
    }
    assert_eq!(e.find(FunctionRef::Symbol(Symbol::Finish)), None);
    assert_eq!(e.find(FunctionRef::Symbol(Symbol::Revert)), Some(older));
    // the code goes into the entry point that was added
    let older = e.module.add_function("main", context.void_type().fn_type(&[], false), None);
    assert_eq!(e.supply(&runtime, vec![]), Ok(()));
    let missing = EmitError::MissingFunction(FunctionRef::Symbol(Symbol::InitHeap));
    assert_eq!(e.replay(&runtime), Err(missing));
    assert_eq!(older.count_basic_blocks(), 0);
    assert_eq!(e.added[16].unwrap().count_basic_blocks(), 1);
}

#[test]
fn a_fresh_builder_gets_its_position() {
    let context = Context::create();
    let contract = source(0);
    let ns = resolver::Namespace { contracts: vec![source(0)] };
    let mut c = session(&contract, &ns);
    let address = pointer(&mut c, 8);
    TARGET.create_contract(&mut c, FunctionRef::Enclosing, 0, 0, address, &[], b"");
    // only the last steps, which start with a position, can do without one
    let (mut e, f) = emitter(&context, &params(&context, &[Kind::Pointer(Pointee::Int(8))]));
    while let Ok(Progress::Request(_)) = e.replay(&c) {
        assert_eq!(e.supply(&c, vec![f.get_nth_param(0).unwrap()]), Ok(()));
    }
    assert!(matches!(c.steps.last(), Some(Step::PositionAtEnd { .. })));
    e.builder = context.create_builder();
    e.values.pop();
    e.blocks.pop();
    e.added.pop();
    assert_eq!(e.replay(&c), Ok(Progress::Done));
    let block = e.builder.get_insert_block().unwrap();
    assert_eq!(block.get_name().to_str(), Ok("success1"));
}

#[test]
fn stack_space_is_cast_to_the_type_of_the_destination() {
    let context = Context::create();
    let (contract, ns) = (source(0), namespace());
    let mut c = session(&contract, &ns);
    let slot = pointer(&mut c, 256);
    let dest = pointer(&mut c, 32);
    TARGET.set_storage(&mut c, FunctionRef::Enclosing, slot, dest);
    let far = context.i32_type().ptr_type(AddressSpace::from(5));
    let word = context.custom_width_int_type(256).ptr_type(AddressSpace::default());
    let (mut e, f) = emitter(&context, &[word.into(), far.into()]);
    finish(&mut e, &c, &f.get_params());
    assert_eq!(
        body(&e)[4..7],
        [
            "%value1 = load i32, i32 addrspace(5)* %1, align 4",
            "%2 = addrspacecast i256* %value to i32 addrspace(5)*",
            "store i32 %value1, i32 addrspace(5)* %2, align 4",
        ]
    );
}

#[test]
fn declared_functions_can_be_called_on_llvm() {
    let context = Context::create();
    let (contract, ns) = (source(0), namespace());
    let symbols = vec![Symbol::InitHeap, Symbol::Malloc];
    let level = OptimizationLevel::Default;
    let mut c = EwasmTarget::build_runtime(&contract, &ns, "", level, symbols);
    let module = c.steps.len();
    let bytes = pointer(&mut c, 8);
    let length = integer(&mut c, 32);
    TARGET.external_call(&mut c, bytes, length, bytes);
    TARGET.return_data(&mut c);
    // the module declares every host function and has the library's
    let mut e = Emitter::new(&context, context.create_module("m"), context.create_builder());
    let p = context.i8_type().ptr_type(AddressSpace::default());
    let i = context.i32_type();
    e.module.add_function("__init_heap", context.void_type().fn_type(&[], false), None);
    e.module.add_function("__malloc", p.fn_type(&[i.into()], false), None);
    e.functions.push(e.module.add_function("own", context.void_type().fn_type(&[], false), None));
    while let Ok(Progress::Request(step)) = e.replay(&c) {
        if step == module {
            break;
        }
        assert_eq!(e.supply(&c, vec![]), Ok(()));
    }
    // what follows goes to a function of its own
    let f = e.module.add_function("f", i.fn_type(&[p.into(), i.into()], false), None);
    e.builder.position_at_end(context.append_basic_block(f, "start"));
    assert_eq!(e.supply(&c, vec![f.get_nth_param(0).unwrap()]), Ok(()));
    assert_eq!(e.replay(&c), Ok(Progress::Request(module + 1)));
    assert_eq!(e.supply(&c, vec![f.get_nth_param(1).unwrap()]), Ok(()));
    assert_eq!(e.replay(&c), Ok(Progress::Request(module + 2)));
    assert!(matches!(c.steps[module + 2], Step::GlobalString { .. }));
    assert_eq!(e.supply(&c, vec![f.get_nth_param(0).unwrap()]), Ok(()));
    assert_eq!(e.replay(&c), Ok(Progress::Done));
    assert_eq!(
        body(&e),
        [
            "start:",
            "%2 = call i32 @call(i64 0, i8* %0, i8* %0, i8* %0, i32 %1)",
            "%returndatasize = call i32 @getReturnDataSize()",
            "%3 = call i8* @__malloc(i32 %returndatasize)",
            "call void @returnDataCopy(i8* %3, i32 0, i32 %returndatasize)",
        ]
    );
}
