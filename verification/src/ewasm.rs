//! The ewasm target.
use crate::code::{self, CODE_SIZE, Encoding};
use crate::contract::{Contract, Global, OptimizationLevel, lemma_took_both, lemma_values_kept};
use crate::ethabiencoder::{EthAbiEncoder, decoded};
use crate::ir::{
    Operand, FunctionRef, IntOperand, Kind, List, Pointee, PointerOperand, Step, Symbol, int_at,
    pointer_at, valid_width,
};
use crate::resolver::{self, Parameter};
use vstd::prelude::*;
use vstd::string::StringExecFns;

verus! {

/// Emits code for the ewasm runtime.
#[derive(Clone, Copy, PartialEq, Eq, Structural, Debug)]
pub struct EwasmTarget {
    pub abi: EthAbiEncoder,
}

/// A contract that has to be compiled to wasm.
#[derive(Debug)]
pub struct WasmRequest<'a> {
    pub contract: &'a resolver::Contract,
    pub ns: &'a resolver::Namespace,
    pub filename: &'a str,
    pub opt: OptimizationLevel,
    pub linking: bool,
}

/// The word whose bytes in memory, low byte first, are the selector's, high byte first.
fn selector_word(selector: u32) -> (word: u32)
    ensures
        word == code::selector_word(selector),
{
    (selector % 256) * 0x1000000 + (selector / 0x100 % 256) * 0x10000 + (selector / 0x10000 % 256)
        * 0x100 + selector / 0x1000000
}

/// An integer constant of 32 bits.
fn i32_const(value: u64) -> (constant: IntOperand)
    ensures
        constant == crate::ir::i32_const(value),
{
    IntOperand::Const { width: 32, value }
}

/// The balance that goes with a call or a creation: zero, as an integer of 128 bits.
fn balance() -> (balance: [u8; 16])
    ensures
        balance@ == code::balance(),
{
    let balance: [u8; 16] = [0, 0, 0, 0, 0, 0, 0, 0, 0, 0, 0, 0, 0, 0, 0, 0];
    assert(balance@ =~= code::balance());
    balance
}

/// The names that stay visible in the deployer module.
fn deployer_exports() -> (names: Vec<&'static str>)
    ensures
        names@ == code::deployer_exports(),
{
    let mut names: Vec<&'static str> = Vec::new();
    names.push("main");
    names.push("getCallDataSize");
    names.push("callDataCopy");
    names.push("storageStore");
    names.push("storageLoad");
    names.push("finish");
    names.push("revert");
    names.push("copyCopy");
    names.push("getCodeSize");
    names.push("printMem");
    names.push("call");
    names.push("create");
    names.push("getReturnDataSize");
    names.push("returnDataCopy");
    assert(names@ =~= code::deployer_exports());
    names
}

/// With the host functions declared, a module holds them and what it held before.
proof fn lemma_holds_externals(library: Seq<Symbol>)
    ensures
        forall|s: Symbol|
            library.contains(s) || code::externals().contains(s) ==> #[trigger] (library
                + code::externals()).contains(s),
        forall|i: int|
            0 <= i < code::externals().len() ==> code::externals().contains(
                #[trigger] code::externals()[i],
            ),
        code::externals()[2] == Symbol::GetCallDataSize,
        code::externals()[3] == Symbol::GetCodeSize,
        code::externals()[5] == Symbol::CallDataCopy,
        code::externals()[6] == Symbol::CodeCopy,
        code::externals()[11] == Symbol::Finish,
{
    let all = library + code::externals();
    assert forall|s: Symbol|
        library.contains(s) || code::externals().contains(s) implies #[trigger] all.contains(s) by {
        if library.contains(s) {
            let i = choose|i: int| 0 <= i < library.len() && library[i] == s;
            assert(all[i] == s);
        } else {
            let i = choose|i: int|
                0 <= i < code::externals().len() && code::externals()[i] == s;
            assert(all[library.len() + i] == s);
        }
    }
}

/// The name of the global that holds a contract's code.
fn code_name(contract: &resolver::Contract) -> (name: String)
    ensures
        name@ == code::code_name(contract),
{
    "contract_".to_owned().concat(contract.name.as_str()).concat("_code")
}

/// The sum of the parameters' fixed lengths, in order, does not pass its total.
proof fn lemma_fixed_length_take(spec: Seq<Parameter>, n: int)
    requires
        0 <= n <= spec.len(),
    ensures
        code::fixed_length(spec.take(n)) <= code::fixed_length(spec),
    decreases spec.len() - n,
{
    if n < spec.len() {
        lemma_fixed_length_take(spec, n + 1);
        assert(spec.take(n + 1).drop_last() =~= spec.take(n));
    } else {
        assert(spec.take(n) =~= spec);
    }
}

/// What a sequence held it still holds after one more item.
proof fn lemma_push_keeps(symbols: Seq<Symbol>, symbol: Symbol)
    ensures
        forall|s: Symbol| symbols.contains(s) ==> #[trigger] symbols.push(symbol).contains(s),
{
    assert forall|s: Symbol| symbols.contains(s) implies #[trigger] symbols.push(symbol).contains(
        s,
    ) by {
        let i = choose|i: int| 0 <= i < symbols.len() && symbols[i] == s;
        assert(symbols.push(symbol)[i] == s);
    }
}

impl EwasmTarget {
    /// The sum of the parameters' fixed lengths.
    fn fixed_length<'a>(&self, contract: &Contract<'a>, spec: &[Parameter]) -> (length: u64)
        requires
            code::fixed_length(spec@) <= u64::MAX,
        ensures
            length == code::fixed_length(spec@),
    {
        let mut length: u64 = 0;
        let mut i: usize = 0;
        while i < spec.len()
            invariant
                i <= spec@.len(),
                code::fixed_length(spec@) <= u64::MAX,
                length == code::fixed_length(spec@.take(i as int)),
            decreases spec@.len() - i,
        {
            proof {
                lemma_fixed_length_take(spec@, i + 1);
                assert(spec@.take(i + 1).drop_last() =~= spec@.take(i as int));
            }
            length = length + self.abi.encoded_fixed_length(&spec[i].ty, contract.ns);
            i += 1;
        }
        assert(spec@.take(i as int) =~= spec@);
        length
    }

    /// Finds the length of the encoding. Returns the length of the fixed part, the length
    /// of the selector and the arguments, and the whole length.
    #[verifier::rlimit(40)]
    fn encode_lengths<'a>(
        &self,
        contract: &mut Contract<'a>,
        args: &[Operand],
        spec: &[Parameter],
        Ghost(e): Ghost<Encoding>,
        selector: Option<u32>,
        constant: Option<(PointerOperand, u64)>,
        load: bool,
        function: FunctionRef,
    ) -> (lengths: (IntOperand, IntOperand, IntOperand))
        requires
            old(contract).wf(),
            e == (Encoding {
                base: old(contract).next(),
                selector,
                constant,
                load,
                function,
                args: args@,
                spec: spec@,
            }),
            old(contract).function_defined(old(contract).next(), function),
            spec@.len() <= args@.len(),
            forall|i: int| 0 <= i < spec@.len() ==> old(contract).value_defined(#[trigger] args@[i]),
            code::fixed_length(spec@) <= u64::MAX,
        ensures
            final(contract).took(*old(contract), e.lengths()),
            lengths == (e.fixed(), e.selector_length(), e.length()),
            final(contract).int_defined(lengths.1),
            final(contract).int_defined(lengths.2),
    {
        broadcast use crate::contract::group_kept;

        let ghost before = *contract;
        let offset = i32_const(self.fixed_length(contract, spec));
        let mut length = offset;
        let mut i: usize = 0;
        while i < spec.len()
            invariant
                i <= spec@.len() <= args@.len(),
                e.base == before.steps@.len(),
                e.args == args@,
                e.spec == spec@,
                e.load == load,
                e.function == function,
                before.function_defined(before.next(), function),
                forall|k: int|
                    0 <= k < spec@.len() ==> before.value_defined(#[trigger] args@[k]),
                contract.took(before, e.add_arguments(i as int)),
                offset == e.fixed(),
                length == e.arguments_length(i as int),
                contract.int_defined(length),
            decreases spec@.len() - i,
        {
            assert(before.value_defined(args@[i as int]));
            let dynamic = self.abi.encoded_dynamic_length(
                args[i],
                load,
                &spec[i].ty,
                function,
                contract,
            );
            length = contract.build_int_add(length, dynamic);
            i += 1;
            assert(contract.steps@ =~= before.steps@ + e.add_arguments(i as int));
        }
        if selector.is_some() {
            length = contract.build_int_add(length, i32_const(4));
        }
        let selector_length = length;
        if let Some((_, len)) = constant {
            length = contract.build_int_add(length, i32_const(len));
        }
        assert(contract.steps@ =~= before.steps@ + e.lengths());
        (offset, selector_length, length)
    }

    /// Allocates the encoding and writes what comes before the arguments. Returns the
    /// encoding's first byte and that of the arguments.
    fn encode_prefix<'a>(
        &self,
        contract: &mut Contract<'a>,
        Ghost(e): Ghost<Encoding>,
        selector: Option<u32>,
        constant: Option<(PointerOperand, u64)>,
        length: IntOperand,
    ) -> (starts: (PointerOperand, PointerOperand))
        requires
            old(contract).wf(),
            old(contract).steps@.len() == e.allocation(),
            selector == e.selector,
            constant == e.constant,
            length == e.length(),
            old(contract).int_defined(length),
            old(contract).has(Symbol::Malloc),
            constant is Some ==> old(contract).has(Symbol::Memcpy),
            constant matches Some((code, _)) ==> old(contract).pointer_defined(code),
        ensures
            final(contract).took(*old(contract), e.prefix()),
            starts == (e.start(), e.arguments_start()),
            final(contract).pointer_defined(starts.0),
            final(contract).pointer_defined(starts.1),
    {
        broadcast use crate::contract::group_kept;

        let ghost before = *contract;
        let encoded_data = contract.build_pointer_call(
            Symbol::Malloc,
            List::One(Operand::Int(length)),
        );
        let mut data = encoded_data;
        if let Some(selector) = selector {
            let word = contract.build_pointer_cast(data, 32, "");
            contract.build_store(word, i32_const(selector_word(selector) as u64));
            data = contract.build_gep(data, i32_const(4));
        }
        assert(contract.steps@ =~= before.steps@ + e.allocate() + e.write_selector());
        if let Some((code, code_len)) = constant {
            let bytes = contract.build_pointer_cast(data, 8, "");
            contract.build_call(
                FunctionRef::Symbol(Symbol::Memcpy),
                List::Three(
                    Operand::Pointer(bytes),
                    Operand::Pointer(code),
                    Operand::Int(i32_const(code_len)),
                ),
            );
            data = contract.build_gep(data, i32_const(code_len));
        }
        assert(contract.steps@ =~= before.steps@ + e.prefix());
        (encoded_data, data)
    }

    /// Zeroes the arguments. Returns where the dynamic parts go.
    fn clear_arguments<'a>(
        &self,
        contract: &mut Contract<'a>,
        Ghost(e): Ghost<Encoding>,
        data: PointerOperand,
        offset: IntOperand,
        selector_length: IntOperand,
    ) -> (dynamic: PointerOperand)
        requires
            old(contract).wf(),
            old(contract).next() == e.constant_written(),
            data == e.arguments_start(),
            offset == e.fixed(),
            selector_length == e.selector_length(),
            old(contract).pointer_defined(data),
            old(contract).int_defined(selector_length),
            old(contract).has(Symbol::Bzero8),
        ensures
            final(contract).took(*old(contract), e.clear_arguments()),
            dynamic == e.dynamic_start(),
            final(contract).pointer_defined(data),
            final(contract).pointer_defined(dynamic),
    {
        broadcast use crate::contract::group_kept;

        let ghost before = *contract;
        // The length may include the selector. The arguments take a multiple of 32
        // bytes and the selector takes 4, so the division by 8 drops the selector.
        let words = contract.build_int_unsigned_div(selector_length, i32_const(8));
        contract.build_call(
            FunctionRef::Symbol(Symbol::Bzero8),
            List::Two(Operand::Pointer(data), Operand::Int(words)),
        );
        let dynamic = contract.build_gep(data, offset);
        assert(contract.steps@ =~= before.steps@ + e.clear_arguments());
        dynamic
    }

    /// Writes the arguments.
    fn write_arguments<'a>(
        &self,
        contract: &mut Contract<'a>,
        args: &[Operand],
        spec: &[Parameter],
        Ghost(e): Ghost<Encoding>,
        load: bool,
        function: FunctionRef,
        starts: (PointerOperand, IntOperand, PointerOperand),
    )
        requires
            old(contract).wf(),
            old(contract).next() == e.first_argument(),
            e.args == args@,
            e.spec == spec@,
            e.load == load,
            e.function == function,
            starts == (e.arguments_start(), e.fixed(), e.dynamic_start()),
            old(contract).function_defined(old(contract).next(), function),
            old(contract).pointer_defined(starts.0),
            old(contract).pointer_defined(starts.2),
            spec@.len() <= args@.len(),
            forall|i: int| 0 <= i < spec@.len() ==> old(contract).value_defined(#[trigger] args@[i]),
        ensures
            final(contract).took(*old(contract), e.write_arguments(spec@.len() as int)),
    {
        broadcast use crate::contract::group_kept;

        let ghost before = *contract;
        let (mut data, mut offset, mut dynamic) = starts;
        assert(before.steps@ + e.write_arguments(0) =~= before.steps@);
        let mut i: usize = 0;
        while i < spec.len()
            invariant
                i <= spec@.len() <= args@.len(),
                before.next() == e.first_argument(),
                e.args == args@,
                e.spec == spec@,
                e.load == load,
                e.function == function,
                before.function_defined(before.next(), function),
                forall|k: int|
                    0 <= k < spec@.len() ==> before.value_defined(#[trigger] args@[k]),
                contract.took(before, e.write_arguments(i as int)),
                data == e.data(i as int),
                offset == e.offset(i as int),
                dynamic == e.dynamic(i as int),
                contract.pointer_defined(data),
                contract.int_defined(offset),
                contract.pointer_defined(dynamic),
            decreases spec@.len() - i,
        {
            assert(before.value_defined(args@[i as int]));
            self.abi.encode_ty(
                contract,
                load,
                function,
                &spec[i].ty,
                args[i],
                &mut data,
                &mut offset,
                &mut dynamic,
            );
            i += 1;
            assert(contract.steps@ =~= before.steps@ + e.write_arguments(i as int));
        }
    }

    /// Encodes the arguments, after the selector and the constant bytes where they are
    /// given. Returns the encoding's first byte and its length.
    #[verifier::spinoff_prover]
    #[verifier::rlimit(40)]
    pub fn encode<'a>(
        &self,
        contract: &mut Contract<'a>,
        selector: Option<u32>,
        constant: Option<(PointerOperand, u64)>,
        load: bool,
        function: FunctionRef,
        args: &[Operand],
        spec: &[Parameter],
    ) -> (encoded: (PointerOperand, IntOperand))
        requires
            old(contract).wf(),
            old(contract).has(Symbol::Malloc),
            old(contract).has(Symbol::Bzero8),
            constant is Some ==> old(contract).has(Symbol::Memcpy),
            constant matches Some((code, _)) ==> old(contract).pointer_defined(code),
            old(contract).function_defined(old(contract).next(), function),
            spec@.len() <= args@.len(),
            forall|i: int| 0 <= i < spec@.len() ==> old(contract).value_defined(#[trigger] args@[i]),
            code::fixed_length(spec@) <= u64::MAX,
        ensures
            ({
                let e = Encoding {
                    base: old(contract).next(),
                    selector,
                    constant,
                    load,
                    function,
                    args: args@,
                    spec: spec@,
                };
                &&& final(contract).took(*old(contract), e.code())
                &&& encoded == (e.start(), e.length())
            }),
            final(contract).pointer_defined(encoded.0),
            final(contract).int_defined(encoded.1),
    {
        let ghost before = *contract;
        let ghost e = Encoding {
            base: before.next(),
            selector,
            constant,
            load,
            function,
            args: args@,
            spec: spec@,
        };
        let (offset, selector_length, length) = self.encode_lengths(
            contract,
            args,
            spec,
            Ghost(e),
            selector,
            constant,
            load,
            function,
        );
        let ghost with_lengths = *contract;
        let (encoded_data, data) = self.encode_prefix(
            contract,
            Ghost(e),
            selector,
            constant,
            length,
        );
        let ghost with_prefix = *contract;
        let dynamic = self.clear_arguments(
            contract,
            Ghost(e),
            data,
            offset,
            selector_length,
        );
        let ghost with_head = *contract;
        proof {
            lemma_took_both(before, with_lengths, with_prefix, e.lengths(), e.prefix());
            lemma_took_both(
                before,
                with_prefix,
                with_head,
                e.lengths() + e.prefix(),
                e.clear_arguments(),
            );
            lemma_values_kept(before, with_head, args@);
            lemma_values_kept(with_lengths, with_prefix, args@);
            lemma_values_kept(with_prefix, with_head, args@);
        }
        self.write_arguments(
            contract,
            args,
            spec,
            Ghost(e),
            load,
            function,
            (data, offset, dynamic),
        );
        proof {
            lemma_took_both(
                before,
                with_head,
                *contract,
                e.head(),
                e.write_arguments(spec@.len() as int),
            );
            lemma_values_kept(with_head, *contract, args@);
        }
        (encoded_data, length)
    }

    /// Declares the host functions.
    #[verifier::rlimit(40)]
    fn declare_externals<'a>(&self, contract: &mut Contract<'a>)
        requires
            old(contract).wf(),
        ensures
            final(contract).wf(),
            final(contract).same_frame(*old(contract)),
            final(contract).globals == old(contract).globals,
            final(contract).code_size == old(contract).code_size,
            final(contract).symbols@ == old(contract).symbols@ + code::externals(),
            final(contract).steps@ == old(contract).steps@ + code::declare_externals(
                old(contract).next(),
            ),
    {
        broadcast use crate::contract::group_kept;

        let ghost before = *contract;
        let p = Kind::Pointer(Pointee::Int(8));
        let i = Kind::Int(32);
        let gas = Kind::Int(64);
        contract.add_function(Symbol::StorageStore, None, List::Two(p, p), true);
        contract.add_function(Symbol::StorageLoad, None, List::Two(p, p), true);
        contract.add_function(Symbol::GetCallDataSize, Some(i), List::Zero, true);
        contract.add_function(Symbol::GetCodeSize, Some(i), List::Zero, true);
        contract.add_function(Symbol::GetReturnDataSize, Some(i), List::Zero, true);
        contract.add_function(Symbol::CallDataCopy, None, List::Three(p, i, i), true);
        contract.add_function(Symbol::CodeCopy, None, List::Three(p, i, i), true);
        contract.add_function(Symbol::ReturnDataCopy, None, List::Three(p, i, i), true);
        contract.add_function(Symbol::PrintMem, None, List::Two(p, i), true);
        contract.add_function(Symbol::Create, Some(i), List::Four(p, p, i, p), true);
        contract.add_function(Symbol::Call, Some(i), List::Five(gas, p, p, p, i), true);
        let finish: usize = contract.steps.len();
        contract.add_function(Symbol::Finish, None, List::Two(p, i), true);
        contract.set_no_return(finish);
        let revert: usize = contract.steps.len();
        contract.add_function(Symbol::Revert, None, List::Two(p, i), true);
        contract.set_no_return(revert);
        assert(contract.symbols@ =~= before.symbols@ + code::externals());
        assert(contract.steps@ =~= before.steps@ + code::declare_externals(before.next()));
    }

    /// Enters the function and copies the whole call data to the heap. Returns the data
    /// and its length.
    fn runtime_prelude<'a>(&self, contract: &mut Contract<'a>, function: FunctionRef) -> (args: (
        PointerOperand,
        IntOperand,
    ))
        requires
            old(contract).wf(),
            old(contract).function_defined(old(contract).next(), function),
            old(contract).has(Symbol::InitHeap),
            old(contract).has(Symbol::GetCallDataSize),
            old(contract).has(Symbol::Malloc),
            old(contract).has(Symbol::CallDataCopy),
        ensures
            final(contract).took(
                *old(contract),
                code::runtime_prelude(old(contract).next(), function),
            ),
            args.0 == pointer_at(old(contract).next() + 6, 32),
            args.1 == int_at(old(contract).next() + 3, 32),
            final(contract).pointer_defined(args.0),
            final(contract).int_defined(args.1),
    {
        broadcast use crate::contract::group_kept;

        let ghost before = *contract;
        let entry = contract.append_basic_block(function, "entry");
        contract.position_at_end(entry);
        contract.build_call(FunctionRef::Symbol(Symbol::InitHeap), List::Zero);
        let args_length = contract.build_int_call(
            Symbol::GetCallDataSize,
            List::Zero,
            "calldatasize",
        );
        let args = contract.build_pointer_call(
            Symbol::Malloc,
            List::One(Operand::Int(args_length)),
        );
        contract.build_call(
            FunctionRef::Symbol(Symbol::CallDataCopy),
            List::Three(
                Operand::Pointer(args),
                Operand::Int(i32_const(0)),
                Operand::Int(args_length),
            ),
        );
        let args = contract.build_pointer_cast(args, 32, "");
        assert(contract.steps@ =~= before.steps@ + code::runtime_prelude(
            before.next(),
            function,
        ));
        (args, args_length)
    }

    /// Enters the function and copies what follows the deployed code to the heap.
    /// Returns the data and its length. The size of the deployed code is not known yet;
    /// a constant that has to be patched later stands for it.
    fn deployer_prelude<'a>(&self, contract: &mut Contract<'a>, function: FunctionRef) -> (args: (
        PointerOperand,
        IntOperand,
    ))
        requires
            old(contract).wf(),
            old(contract).function_defined(old(contract).next(), function),
            old(contract).has(Symbol::InitHeap),
            old(contract).has(Symbol::GetCodeSize),
            old(contract).has(Symbol::Malloc),
            old(contract).has(Symbol::CodeCopy),
        ensures
            final(contract).wf(),
            final(contract).same_frame(*old(contract)),
            final(contract).symbols == old(contract).symbols,
            final(contract).globals == old(contract).globals,
            final(contract).code_size == Some(crate::ir::i32_const(CODE_SIZE)),
            final(contract).steps@ == old(contract).steps@ + code::deployer_prelude(
                old(contract).next(),
                function,
            ),
            args.0 == pointer_at(old(contract).next() + 7, 32),
            args.1 == int_at(old(contract).next() + 4, 32),
            final(contract).pointer_defined(args.0),
            final(contract).int_defined(args.1),
    {
        broadcast use crate::contract::group_kept;

        let ghost before = *contract;
        let entry = contract.append_basic_block(function, "entry");
        contract.position_at_end(entry);
        contract.build_call(FunctionRef::Symbol(Symbol::InitHeap), List::Zero);
        let code_size = i32_const(CODE_SIZE);
        let whole = contract.build_int_call(Symbol::GetCodeSize, List::Zero, "codesize");
        let args_length = contract.build_int_sub(whole, code_size);
        let args = contract.build_pointer_call(
            Symbol::Malloc,
            List::One(Operand::Int(args_length)),
        );
        contract.build_call(
            FunctionRef::Symbol(Symbol::CodeCopy),
            List::Three(
                Operand::Pointer(args),
                Operand::Int(code_size),
                Operand::Int(args_length),
            ),
        );
        let args = contract.build_pointer_cast(args, 32, "");
        assert(contract.steps@ =~= before.steps@ + code::deployer_prelude(
            before.next(),
            function,
        ));
        contract.set_code_size(code_size);
        (args, args_length)
    }

    /// Emits the deployer's entry point, which returns the runtime code.
    #[verifier::rlimit(40)]
    pub fn deployer_dispatch<'a>(&self, contract: &mut Contract<'a>, runtime: &[u8])
        requires
            old(contract).wf(),
            old(contract).has(Symbol::InitHeap),
            old(contract).has(Symbol::GetCodeSize),
            old(contract).has(Symbol::Malloc),
            old(contract).has(Symbol::CodeCopy),
            old(contract).has(Symbol::Finish),
            old(contract).contract.constructors@.len() > 0 ==> {
                &&& old(contract).constructors@.len() > 0
                &&& old(contract).function_defined(
                    old(contract).next(),
                    old(contract).constructors@[0],
                )
            },
        ensures
            final(contract).wf(),
            final(contract).same_frame(*old(contract)),
            final(contract).symbols@ == old(contract).symbols@.push(Symbol::Main),
            final(contract).globals_extend(*old(contract), 1),
            final(contract).globals@.last().is("runtime_code"@, runtime@, true),
            final(contract).code_size == Some(crate::ir::i32_const(CODE_SIZE)),
            final(contract).steps@ == old(contract).steps@ + code::deployer_dispatch(
                old(contract).next(),
                old(contract).contract,
                old(contract).constructors@,
                old(contract).globals@.len() as int,
                runtime@.len() as int,
            ),
    {
        broadcast use crate::contract::group_kept;

        let ghost before = *contract;
        let initializer = contract.emit_initializer();
        let function = contract.add_function(Symbol::Main, None, List::Zero, false);
        proof {
            assert(contract.symbols@.last() == Symbol::Main);
            lemma_push_keeps(before.symbols@, Symbol::Main);
        }
        let ghost with_main = *contract;
        let (argsdata, length) = self.deployer_prelude(contract, function);
        let ghost with_prelude = *contract;
        assert(with_prelude.steps@[before.next()] is EmitInitializer);
        assert(contract.function_defined(contract.next(), initializer));
        contract.build_call(initializer, List::Zero);
        let source = contract.contract;
        if source.constructors.len() > 0 {
            let mut args: Vec<Operand> = Vec::new();
            let decode: usize = self.abi.decode(
                contract,
                function,
                &mut args,
                argsdata,
                length,
                &source.constructors[0].params,
            );
            let constructor = contract.constructors[0];
            contract.build_decoded_call(constructor, decode);
        }
        let ghost constructor = code::construct(
            before.next() + 11,
            before.contract,
            before.constructors@,
            function,
            argsdata,
            length,
        );
        assert(contract.steps@ =~= with_prelude.steps@.push(
            Step::Call { callee: initializer, args: List::Zero, name: "" },
        ) + constructor);
        let ghost constructed = *contract;
        let runtime_code = contract.emit_global_string("runtime_code".to_owned(), runtime, true);
        contract.build_call(
            FunctionRef::Symbol(Symbol::Finish),
            List::Two(
                Operand::Pointer(runtime_code),
                Operand::Int(i32_const(runtime.len() as u64)),
            ),
        );
        contract.build_unreachable();
        assert(contract.steps@ =~= before.steps@ + code::deployer_dispatch(
            before.next(),
            before.contract,
            before.constructors@,
            before.globals@.len() as int,
            runtime@.len() as int,
        ));
    }

    /// Emits the runtime's entry point, which dispatches on the call data.
    pub fn emit_function_dispatch<'a>(&self, contract: &mut Contract<'a>)
        requires
            old(contract).wf(),
            old(contract).has(Symbol::InitHeap),
            old(contract).has(Symbol::GetCallDataSize),
            old(contract).has(Symbol::Malloc),
            old(contract).has(Symbol::CallDataCopy),
            old(contract).contract.fallback matches Some(f) ==> {
                &&& f < old(contract).functions@.len()
                &&& old(contract).function_defined(
                    old(contract).next(),
                    old(contract).functions@[f as int],
                )
            },
        ensures
            final(contract).wf(),
            final(contract).same_frame(*old(contract)),
            final(contract).symbols@ == old(contract).symbols@.push(Symbol::Main),
            final(contract).globals == old(contract).globals,
            final(contract).code_size == old(contract).code_size,
            final(contract).steps@ == old(contract).steps@ + code::emit_function_dispatch(
                old(contract).next(),
                old(contract).contract,
                old(contract).functions@,
            ),
    {
        broadcast use crate::contract::group_kept;

        let ghost before = *contract;
        let function = contract.add_function(Symbol::Main, None, List::Zero, false);
        proof {
            assert(contract.symbols@.last() == Symbol::Main);
            lemma_push_keeps(before.symbols@, Symbol::Main);
        }
        let (argsdata, argslen) = self.runtime_prelude(contract, function);
        let fallback_block = contract.append_basic_block(function, "fallback");
        contract.emit_function_dispatch(argsdata, argslen, function, fallback_block);
        contract.position_at_end(fallback_block);
        match contract.contract.fallback_function() {
            Some(f) => {
                let fallback = contract.functions[f];
                contract.build_call(fallback, List::Zero);
                contract.build_return(i32_const(0));
            },
            None => {
                contract.build_unreachable();
            },
        }
        assert(contract.steps@ =~= before.steps@ + code::emit_function_dispatch(
            before.next(),
            before.contract,
            before.functions@,
        ));
    }

    /// Stores zero in the slot.
    pub fn clear_storage<'a>(
        &self,
        contract: &mut Contract<'a>,
        _function: FunctionRef,
        slot: PointerOperand,
    )
        requires
            old(contract).wf(),
            old(contract).has(Symbol::Bzero8),
            old(contract).has(Symbol::StorageStore),
            old(contract).pointer_defined(slot),
        ensures
            final(contract).took(
                *old(contract),
                code::clear_storage(old(contract).next(), slot),
            ),
    {
        broadcast use crate::contract::group_kept;

        let ghost before = *contract;
        let value = contract.build_alloca(256, "value");
        let value8 = contract.build_pointer_cast(value, 8, "value8");
        contract.build_call(
            FunctionRef::Symbol(Symbol::Bzero8),
            List::Two(Operand::Pointer(value8), Operand::Int(i32_const(4))),
        );
        let slot8 = contract.build_pointer_cast(slot, 8, "");
        contract.build_call(
            FunctionRef::Symbol(Symbol::StorageStore),
            List::Two(Operand::Pointer(slot8), Operand::Pointer(value8)),
        );
        assert(contract.steps@ =~= before.steps@ + code::clear_storage(before.next(), slot));
    }

    /// Stores the integer at `dest` in the slot.
    pub fn set_storage<'a>(
        &self,
        contract: &mut Contract<'a>,
        _function: FunctionRef,
        slot: PointerOperand,
        dest: PointerOperand,
    )
        requires
            old(contract).wf(),
            dest.spec_pointee() matches Pointee::Int(width) && valid_width(width),
            dest.spec_pointee() != Pointee::Int(256) ==> old(contract).has(Symbol::Bzero8),
            old(contract).has(Symbol::StorageStore),
            old(contract).pointer_defined(slot),
            old(contract).pointer_defined(dest),
        ensures
            final(contract).took(
                *old(contract),
                code::set_storage(old(contract).next(), slot, dest, dest.spec_pointee()->Int_0),
            ),
    {
        broadcast use crate::contract::group_kept;

        let ghost before = *contract;
        if let Pointee::Int(width) = dest.pointee() {
            if width == 256 {
                let slot8 = contract.build_pointer_cast(slot, 8, "");
                let dest8 = contract.build_pointer_cast(dest, 8, "");
                contract.build_call(
                    FunctionRef::Symbol(Symbol::StorageStore),
                    List::Two(Operand::Pointer(slot8), Operand::Pointer(dest8)),
                );
            } else {
                let value = contract.build_alloca(256, "value");
                let value8 = contract.build_pointer_cast(value, 8, "value8");
                contract.build_call(
                    FunctionRef::Symbol(Symbol::Bzero8),
                    List::Two(Operand::Pointer(value8), Operand::Int(i32_const(4))),
                );
                let val = contract.build_load(dest, width, "value");
                let place = contract.build_pointer_cast_like(value, dest, "");
                contract.build_store(place, val);
                let slot8 = contract.build_pointer_cast(slot, 8, "");
                contract.build_call(
                    FunctionRef::Symbol(Symbol::StorageStore),
                    List::Two(Operand::Pointer(slot8), Operand::Pointer(value8)),
                );
            }
            assert(contract.steps@ =~= before.steps@ + code::set_storage(
                before.next(),
                slot,
                dest,
                width,
            ));
        }
    }

    /// Loads the integer of `width` bits that the slot holds.
    pub fn get_storage_int<'a>(
        &self,
        contract: &mut Contract<'a>,
        _function: FunctionRef,
        slot: PointerOperand,
        width: u32,
    ) -> (value: IntOperand)
        requires
            old(contract).wf(),
            valid_width(width),
            old(contract).has(Symbol::StorageLoad),
            old(contract).pointer_defined(slot),
        ensures
            final(contract).took(
                *old(contract),
                code::get_storage_int(old(contract).next(), slot, width),
            ),
            value == int_at(old(contract).next() + 5, width),
            final(contract).int_defined(value),
    {
        broadcast use crate::contract::group_kept;

        let ghost before = *contract;
        let dest = contract.build_array_alloca(8, i32_const(32), "buf");
        let slot8 = contract.build_pointer_cast(slot, 8, "");
        let dest8 = contract.build_pointer_cast(dest, 8, "");
        contract.build_call(
            FunctionRef::Symbol(Symbol::StorageLoad),
            List::Two(Operand::Pointer(slot8), Operand::Pointer(dest8)),
        );
        let place = contract.build_pointer_cast(dest, width, "");
        let value = contract.build_load(place, width, "loaded_int");
        assert(contract.steps@ =~= before.steps@ + code::get_storage_int(
            before.next(),
            slot,
            width,
        ));
        value
    }

    /// Hashes `length` bytes at `src` into the 32 bytes at `dest`. ewasm has no host
    /// function for keccak256, so this calls the one of the runtime library.
    pub fn keccak256_hash<'a>(
        &self,
        contract: &mut Contract<'a>,
        src: PointerOperand,
        length: IntOperand,
        dest: PointerOperand,
    )
        requires
            old(contract).wf(),
            old(contract).has(Symbol::Sha3),
            old(contract).pointer_defined(src),
            old(contract).int_defined(length),
            old(contract).pointer_defined(dest),
        ensures
            final(contract).took(
                *old(contract),
                code::keccak256_hash(old(contract).next(), src, length, dest),
            ),
    {
        broadcast use crate::contract::group_kept;

        let ghost before = *contract;
        let src8 = contract.build_pointer_cast(src, 8, "src");
        let dest8 = contract.build_pointer_cast(dest, 8, "dest");
        contract.build_call(
            FunctionRef::Symbol(Symbol::Sha3),
            List::Four(
                Operand::Pointer(src8),
                Operand::Int(length),
                Operand::Pointer(dest8),
                Operand::Int(i32_const(32)),
            ),
        );
        assert(contract.steps@ =~= before.steps@ + code::keccak256_hash(
            before.next(),
            src,
            length,
            dest,
        ));
    }

    /// Ends the execution with no data.
    pub fn return_empty_abi<'a>(&self, contract: &mut Contract<'a>)
        requires
            old(contract).wf(),
            old(contract).has(Symbol::Finish),
        ensures
            final(contract).took(*old(contract), code::return_empty_abi()),
    {
        self.return_abi(
            contract,
            PointerOperand::Null { pointee: Pointee::Int(8) },
            i32_const(0),
        );
    }

    /// Ends the execution with `length` bytes at `data`.
    pub fn return_abi<'a>(&self, contract: &mut Contract<'a>, data: PointerOperand, length: IntOperand)
        requires
            old(contract).wf(),
            old(contract).has(Symbol::Finish),
            old(contract).pointer_defined(data),
            old(contract).int_defined(length),
        ensures
            final(contract).took(*old(contract), code::return_abi(data, length)),
    {
        let ghost before = *contract;
        contract.build_call(
            FunctionRef::Symbol(Symbol::Finish),
            List::Two(Operand::Pointer(data), Operand::Int(length)),
        );
        contract.build_return(i32_const(0));
        assert(contract.steps@ =~= before.steps@ + code::return_abi(data, length));
    }

    /// Reverts the execution with `len` bytes at `data`.
    pub fn assert_failure<'a>(&self, contract: &mut Contract<'a>, data: PointerOperand, len: IntOperand)
        requires
            old(contract).wf(),
            old(contract).has(Symbol::Revert),
            old(contract).pointer_defined(data),
            old(contract).int_defined(len),
        ensures
            final(contract).took(*old(contract), code::assert_failure(data, len)),
    {
        let ghost before = *contract;
        contract.build_call(
            FunctionRef::Symbol(Symbol::Revert),
            List::Two(Operand::Pointer(data), Operand::Int(len)),
        );
        // `revert` does not return, but every block has to end.
        contract.build_unreachable();
        assert(contract.steps@ =~= before.steps@ + code::assert_failure(data, len));
    }

    /// Encodes the arguments, after the selector where it is given. Returns the
    /// encoding's first byte and its length.
    pub fn abi_encode<'a>(
        &self,
        contract: &mut Contract<'a>,
        selector: Option<u32>,
        load: bool,
        function: FunctionRef,
        args: &[Operand],
        spec: &[Parameter],
    ) -> (encoded: (PointerOperand, IntOperand))
        requires
            old(contract).wf(),
            old(contract).has(Symbol::Malloc),
            old(contract).has(Symbol::Bzero8),
            old(contract).function_defined(old(contract).next(), function),
            spec@.len() <= args@.len(),
            forall|i: int| 0 <= i < spec@.len() ==> old(contract).value_defined(#[trigger] args@[i]),
            code::fixed_length(spec@) <= u64::MAX,
        ensures
            ({
                let e = Encoding {
                    base: old(contract).next(),
                    selector,
                    constant: None,
                    load,
                    function,
                    args: args@,
                    spec: spec@,
                };
                &&& final(contract).took(*old(contract), e.code())
                &&& encoded == (e.start(), e.length())
            }),
            final(contract).pointer_defined(encoded.0),
            final(contract).int_defined(encoded.1),
    {
        self.encode(contract, selector, None, load, function, args, spec)
    }

    /// Decodes one value for each parameter onto the end of `args`.
    pub fn abi_decode<'a>(
        &self,
        contract: &mut Contract<'a>,
        function: FunctionRef,
        args: &mut Vec<Operand>,
        data: PointerOperand,
        length: IntOperand,
        spec: &'a Vec<Parameter>,
    )
        requires
            old(contract).wf(),
            old(contract).function_defined(old(contract).next(), function),
            old(contract).pointer_defined(data),
            old(contract).int_defined(length),
        ensures
            final(contract).took_one(
                *old(contract),
                Step::Decode { function, data, length, parameters: spec },
            ),
            final(args)@ == old(args)@ + decoded(old(contract).next(), spec@.len()),
            forall|i: int|
                old(args)@.len() <= i < final(args)@.len() ==> final(contract).value_defined(
                    #[trigger] final(args)@[i],
                ),
    {
        let _ = self.abi.decode(contract, function, args, data, length, spec);
    }

    /// Prints `string_len` bytes at `string_ptr`.
    pub fn print<'a>(
        &self,
        contract: &mut Contract<'a>,
        string_ptr: PointerOperand,
        string_len: IntOperand,
    )
        requires
            old(contract).wf(),
            old(contract).has(Symbol::PrintMem),
            old(contract).pointer_defined(string_ptr),
            old(contract).int_defined(string_len),
        ensures
            final(contract).took(*old(contract), code::print(string_ptr, string_len)),
    {
        let ghost before = *contract;
        contract.build_call(
            FunctionRef::Symbol(Symbol::PrintMem),
            List::Two(Operand::Pointer(string_ptr), Operand::Int(string_len)),
        );
        assert(contract.steps@ =~= before.steps@ + code::print(string_ptr, string_len));
    }

    /// Calls the contract at `address` with the payload. Returns the status.
    pub fn external_call<'a>(
        &self,
        contract: &mut Contract<'a>,
        payload: PointerOperand,
        payload_len: IntOperand,
        address: PointerOperand,
    ) -> (status: IntOperand)
        requires
            old(contract).wf(),
            old(contract).has(Symbol::Call),
            old(contract).pointer_defined(payload),
            old(contract).int_defined(payload_len),
            old(contract).pointer_defined(address),
        ensures
            final(contract).wf(),
            final(contract).same_frame(*old(contract)),
            final(contract).symbols == old(contract).symbols,
            final(contract).code_size == old(contract).code_size,
            final(contract).globals_extend(*old(contract), 1),
            final(contract).globals@.last().is("balance"@, code::balance(), true),
            final(contract).steps@ == old(contract).steps@ + code::external_call(
                old(contract).next(),
                payload,
                payload_len,
                address,
                old(contract).globals@.len() as int,
            ),
            status == int_at(old(contract).next() + 1, 32),
            final(contract).int_defined(status),
    {
        let ghost before = *contract;
        let balance = contract.emit_global_string("balance".to_owned(), &balance(), true);
        let status = contract.build_int_call(
            Symbol::Call,
            List::Five(
                Operand::Int(IntOperand::Const { width: 64, value: 0 }),
                Operand::Pointer(address),
                Operand::Pointer(balance),
                Operand::Pointer(payload),
                Operand::Int(payload_len),
            ),
            "",
        );
        assert(contract.steps@ =~= before.steps@ + code::external_call(
            before.next(),
            payload,
            payload_len,
            address,
            before.globals@.len() as int,
        ));
        status
    }

    /// Copies the whole return data of the last call to the heap. Returns the data and
    /// its length.
    pub fn return_data<'a>(&self, contract: &mut Contract<'a>) -> (returned: (
        PointerOperand,
        IntOperand,
    ))
        requires
            old(contract).wf(),
            old(contract).has(Symbol::GetReturnDataSize),
            old(contract).has(Symbol::Malloc),
            old(contract).has(Symbol::ReturnDataCopy),
        ensures
            final(contract).took(*old(contract), code::return_data(old(contract).next())),
            returned.0 == pointer_at(old(contract).next() + 1, 8),
            returned.1 == int_at(old(contract).next(), 32),
            final(contract).pointer_defined(returned.0),
            final(contract).int_defined(returned.1),
    {
        broadcast use crate::contract::group_kept;

        let ghost before = *contract;
        let length = contract.build_int_call(
            Symbol::GetReturnDataSize,
            List::Zero,
            "returndatasize",
        );
        let return_data = contract.build_pointer_call(
            Symbol::Malloc,
            List::One(Operand::Int(length)),
        );
        contract.build_call(
            FunctionRef::Symbol(Symbol::ReturnDataCopy),
            List::Three(
                Operand::Pointer(return_data),
                Operand::Int(i32_const(0)),
                Operand::Int(length),
            ),
        );
        assert(contract.steps@ =~= before.steps@ + code::return_data(before.next()));
        (return_data, length)
    }

    /// Creates a contract with the `length` bytes at `input` and reverts where that fails.
    #[verifier::rlimit(40)]
    fn finish_creation<'a>(
        &self,
        contract: &mut Contract<'a>,
        function: FunctionRef,
        address: PointerOperand,
        input: PointerOperand,
        input_len: IntOperand,
    )
        requires
            old(contract).wf(),
            old(contract).has(Symbol::Create),
            old(contract).has(Symbol::Revert),
            old(contract).function_defined(old(contract).next(), function),
            old(contract).pointer_defined(address),
            old(contract).pointer_defined(input),
            old(contract).int_defined(input_len),
        ensures
            final(contract).wf(),
            final(contract).same_frame(*old(contract)),
            final(contract).symbols == old(contract).symbols,
            final(contract).code_size == old(contract).code_size,
            final(contract).globals_extend(*old(contract), 1),
            final(contract).globals@.last().is("balance"@, code::balance(), true),
            final(contract).steps@ == old(contract).steps@ + code::finish_creation(
                old(contract).next(),
                function,
                old(contract).globals@.len() as int,
                address,
                input,
                input_len,
            ),
    {
        broadcast use crate::contract::group_kept;

        let ghost before = *contract;
        let balance = contract.emit_global_string("balance".to_owned(), &balance(), true);
        let ret = contract.build_int_call(
            Symbol::Create,
            List::Four(
                Operand::Pointer(balance),
                Operand::Pointer(input),
                Operand::Int(input_len),
                Operand::Pointer(address),
            ),
            "",
        );
        let success = contract.build_int_equal(ret, i32_const(0), "success");
        let ghost compared = *contract;
        proof {
            lemma_values_kept(before, compared, seq![]);
        }
        let success_block = contract.append_basic_block(function, "success");
        let bail_block = contract.append_basic_block(function, "bail");
        contract.build_conditional_branch(success, success_block, bail_block);
        contract.position_at_end(bail_block);
        let ghost bailed = *contract;
        self.assert_failure(
            contract,
            PointerOperand::Null { pointee: Pointee::Int(8) },
            i32_const(0),
        );
        assert(bailed.block_defined(success_block));
        contract.position_at_end(success_block);
        assert(contract.steps@ =~= before.steps@ + code::finish_creation(
            before.next(),
            function,
            before.globals@.len() as int,
            address,
            input,
            input_len,
        ));
    }

    /// What has to be compiled before contract `contract_no` can be created.
    pub fn creation_request<'a>(&self, contract: &Contract<'a>, contract_no: usize) -> (request:
        WasmRequest<'a>)
        requires
            contract_no < contract.ns.contracts@.len(),
        ensures
            request.contract == contract.ns.contracts@[contract_no as int],
            request.ns == contract.ns,
            request.filename@ == ""@,
            request.opt == contract.opt,
            request.linking,
    {
        WasmRequest {
            contract: &contract.ns.contracts[contract_no],
            ns: contract.ns,
            filename: "",
            opt: contract.opt,
            linking: true,
        }
    }

    /// Creates contract `contract_no` and reverts where that fails. `wasm` is what its
    /// `creation_request` compiles to.
    #[verifier::rlimit(40)]
    pub fn create_contract<'a>(
        &self,
        contract: &mut Contract<'a>,
        function: FunctionRef,
        contract_no: usize,
        constructor_no: usize,
        address: PointerOperand,
        args: &[Operand],
        wasm: &[u8],
    )
        requires
            old(contract).wf(),
            old(contract).has(Symbol::Malloc),
            old(contract).has(Symbol::Bzero8),
            old(contract).has(Symbol::Memcpy),
            old(contract).has(Symbol::Create),
            old(contract).has(Symbol::Revert),
            contract_no < old(contract).ns.contracts@.len(),
            ({
                let created = &old(contract).ns.contracts@[contract_no as int];
                let spec = code::constructor_params(created, constructor_no as int);
                &&& created.constructors@.len() > 0 ==> constructor_no
                    < created.constructors@.len()
                &&& spec.len() <= args@.len()
                &&& code::fixed_length(spec) <= u64::MAX
                &&& forall|i: int|
                    0 <= i < spec.len() ==> old(contract).value_defined(#[trigger] args@[i])
            }),
            old(contract).function_defined(old(contract).next(), function),
            old(contract).pointer_defined(address),
        ensures
            final(contract).wf(),
            final(contract).same_frame(*old(contract)),
            final(contract).symbols == old(contract).symbols,
            final(contract).code_size == old(contract).code_size,
            final(contract).globals_extend(*old(contract), 2),
            final(contract).globals@[old(contract).globals@.len() as int].is(
                code::code_name(&old(contract).ns.contracts@[contract_no as int]),
                wasm@,
                true,
            ),
            final(contract).globals@.last().is("balance"@, code::balance(), true),
            final(contract).steps@ == old(contract).steps@ + code::create_contract(
                old(contract).next(),
                function,
                old(contract).globals@.len() as int,
                wasm@.len() as int,
                address,
                args@,
                code::constructor_params(
                    &old(contract).ns.contracts@[contract_no as int],
                    constructor_no as int,
                ),
            ),
    {
        let ghost before = *contract;
        let ns = contract.ns;
        let created = &ns.contracts[contract_no];
        let none: Vec<Parameter> = Vec::new();
        let spec = if created.constructors.len() == 0 {
            &none
        } else {
            &created.constructors[constructor_no].params
        };
        let ghost params = code::constructor_params(created, constructor_no as int);
        assert(spec@ =~= params);
        let code = contract.emit_global_string(code_name(created), wasm, true);
        let ghost with_code = *contract;
        proof {
            lemma_values_kept(before, with_code, args@);
        }
        let (input, input_len) = self.encode(
            contract,
            None,
            Some((code, wasm.len() as u64)),
            false,
            function,
            args,
            spec.as_slice(),
        );
        let ghost e = code::creation_input(
            before.next(),
            function,
            wasm@.len() as int,
            args@,
            params,
        );
        assert(contract.took(with_code, e.code()));
        let ghost with_input = *contract;
        proof {
            lemma_values_kept(with_code, with_input, args@);
        }
        self.finish_creation(contract, function, address, input, input_len);
        proof {
            let n = before.globals@.len() as int;
            let globals = contract.globals@;
            assert forall|i: int| 0 <= i <= n implies globals[i] == with_code.globals@[i] by {
                assert(globals.take(n + 1)[i] == globals[i]);
            }
            assert forall|i: int| 0 <= i < n implies globals[i] == before.globals@[i] by {
                assert(with_code.globals@.take(n)[i] == with_code.globals@[i]);
            }
            assert(globals.take(n) =~= before.globals@);
        }
        let ghost end = before.next() + 1 + e.code::<'a>().len();
        let ghost tail = code::finish_creation(
            end,
            function,
            before.globals@.len() as int + 1,
            address,
            e.start(),
            e.length(),
        );
        assert(contract.steps@ =~= before.steps@ + (seq![
            Step::GlobalString { global: before.globals@.len() as usize },
        ] + e.code() + tail));
    }

    /// Emits the runtime module of the contract, up to its compilation to wasm. `symbols`
    /// are the functions of the runtime library that every module holds.
    pub fn build_runtime<'a>(
        contract: &'a resolver::Contract,
        ns: &'a resolver::Namespace,
        filename: &'a str,
        opt: OptimizationLevel,
        symbols: Vec<Symbol>,
    ) -> (runtime_code: Contract<'a>)
        requires
            contract.wf(),
            symbols@.contains(Symbol::InitHeap),
            symbols@.contains(Symbol::Malloc),
        ensures
            runtime_code.wf(),
            runtime_code.contract == contract,
            runtime_code.ns == ns,
            runtime_code.filename == filename,
            runtime_code.opt == opt,
            runtime_code.runtime is None,
            runtime_code.functions_emitted(),
            runtime_code.symbols@ == symbols@ + code::externals() + seq![Symbol::Main],
            runtime_code.globals@ == Seq::<Global>::empty(),
            runtime_code.exports@ == code::runtime_exports(),
            runtime_code.code_size is None,
            runtime_code.steps@ == code::runtime(contract),
    {
        let ghost library = symbols@;
        let mut runtime_code = Contract::new(contract, ns, filename, opt, None, symbols);
        let target = EwasmTarget { abi: EthAbiEncoder {  } };
        target.declare_externals(&mut runtime_code);
        proof {
            lemma_holds_externals(library);
        }
        runtime_code.emit_functions();
        target.emit_function_dispatch(&mut runtime_code);
        let mut exports: Vec<&'static str> = Vec::new();
        exports.push("main");
        runtime_code.internalize(exports);
        runtime_code.wasm(true);
        assert(runtime_code.symbols@ =~= library + code::externals() + seq![Symbol::Main]);
        assert(runtime_code.steps@ =~= code::runtime(contract));
        runtime_code
    }

    /// Emits the deployer module for the runtime module `runtime_code`, which compiled to
    /// `runtime_bs`. `symbols` are the functions of the runtime library that every module
    /// holds.
    pub fn build<'a>(runtime_code: Contract<'a>, runtime_bs: &[u8], symbols: Vec<Symbol>) -> (
    deploy_code: Contract<'a>)
        requires
            symbols@.contains(Symbol::InitHeap),
            symbols@.contains(Symbol::Malloc),
        ensures
            deploy_code.wf(),
            deploy_code.contract == runtime_code.contract,
            deploy_code.ns == runtime_code.ns,
            deploy_code.filename == runtime_code.filename,
            deploy_code.opt == runtime_code.opt,
            deploy_code.runtime == Some(Box::new(runtime_code)),
            deploy_code.functions_emitted(),
            deploy_code.symbols@ == symbols@ + code::externals() + seq![Symbol::Main],
            deploy_code.globals@.len() == 1,
            deploy_code.globals@[0].is("runtime_code"@, runtime_bs@, true),
            deploy_code.exports@ == code::deployer_exports(),
            deploy_code.code_size == Some(crate::ir::i32_const(CODE_SIZE)),
            deploy_code.steps@ == code::deployer(
                runtime_code.contract,
                runtime_bs@.len() as int,
            ),
    {
        let ghost library = symbols@;
        let contract = runtime_code.contract;
        let mut deploy_code = Contract::new(
            contract,
            runtime_code.ns,
            runtime_code.filename,
            runtime_code.opt,
            Some(Box::new(runtime_code)),
            symbols,
        );
        let target = EwasmTarget { abi: EthAbiEncoder {  } };
        target.declare_externals(&mut deploy_code);
        proof {
            lemma_holds_externals(library);
        }
        deploy_code.emit_functions();
        target.deployer_dispatch(&mut deploy_code, runtime_bs);
        deploy_code.internalize(deployer_exports());
        assert(deploy_code.symbols@ =~= library + code::externals() + seq![Symbol::Main]);
        assert(deploy_code.steps@ =~= code::deployer(contract, runtime_bs@.len() as int));
        deploy_code
    }
}

} // verus!
