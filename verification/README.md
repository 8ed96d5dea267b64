# ewasm_emit

The ewasm target of a Solidity compiler: it emits the LLVM code with which a contract is
deployed, dispatches calls, reads and writes storage, and talks to its host.

An operation of the target (`ewasm::EwasmTarget`) does not touch LLVM. It appends steps to
a `contract::Contract`: calls on an LLVM module or builder, or requests to another part of
the compiler. Its contract says exactly which steps. An `emitter::Emitter` then carries the
steps out on an LLVM module and stops at each request.

- `src/ir.rs`, `src/contract.rs`: steps, values, and the invariant that every step refers
  only to what is there.
- `src/ewasm.rs`, `src/ethabiencoder.rs`, `src/resolver.rs`: the target.
- `src/code.rs`: the steps of each operation.
- `src/emitter.rs`, `src/llvm.rs`: steps on LLVM modules; the calls into `inkwell` are in
  `llvm.rs`.
- `src/machine.rs`: what steps do when they run on an ewasm host.
- `src/laws/`: what holds of the emitted code: storage reads give back writes, an encoding
  has its parts in order, a deployer returns its runtime, host functions are called as they
  are declared, and more.
- `app/`: LLVM values in, requests out.
