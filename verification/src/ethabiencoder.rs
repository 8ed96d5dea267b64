//! The ABI encoder, as far as code is emitted around it.
use crate::contract::Contract;
use crate::ir::{
    Operand, FunctionRef, IntOperand, PointerOperand, Register, Step, int_at,
};
use crate::resolver::{Namespace, Parameter, Type};
use vstd::prelude::*;

verus! {

/// The Ethereum ABI encoder.
#[derive(Clone, Copy, PartialEq, Eq, Structural, Debug)]
pub struct EthAbiEncoder {}

/// The values that a `Decode` step yields for `count` parameters.
pub open spec fn decoded(step: int, count: nat) -> Seq<Operand> {
    Seq::new(
        count,
        |i: int| Operand::Other(Register { step: step as usize, part: i as usize }),
    )
}

/// The pointer that is the `part`-th value of step number `step`.
pub open spec fn pointer_part(step: int, part: usize, like: PointerOperand) -> PointerOperand {
    PointerOperand::Register {
        register: Register { step: step as usize, part },
        pointee: like.spec_pointee(),
    }
}

/// The integer that is the `part`-th value of step number `step`.
pub open spec fn int_part(step: int, part: usize, like: IntOperand) -> IntOperand {
    IntOperand::Register {
        register: Register { step: step as usize, part },
        width: like.spec_width(),
    }
}

impl EthAbiEncoder {
    /// The number of bytes that a value of the type takes in the fixed part.
    pub fn encoded_fixed_length(&self, ty: &Type, ns: &Namespace) -> (length: u64)
        ensures
            length == ty.encoded_fixed_length,
    {
        ty.encoded_fixed_length
    }

    /// The number of bytes that the argument takes in the dynamic part.
    pub fn encoded_dynamic_length<'a>(
        &self,
        arg: Operand,
        load: bool,
        ty: &Type,
        function: FunctionRef,
        contract: &mut Contract<'a>,
    ) -> (length: IntOperand)
        requires
            old(contract).wf(),
            old(contract).value_defined(arg),
            old(contract).function_defined(old(contract).next(), function),
        ensures
            final(contract).took_one(
                *old(contract),
                Step::DynamicLength { arg, load, ty: *ty, function },
            ),
            length == int_at(old(contract).next(), 32),
            final(contract).int_defined(length),
    {
        contract.dynamic_length(arg, load, *ty, function)
    }

    /// Encodes the argument and moves `data`, `offset` and `dynamic` to where the next
    /// argument goes.
    pub fn encode_ty<'a>(
        &self,
        contract: &mut Contract<'a>,
        load: bool,
        function: FunctionRef,
        ty: &Type,
        arg: Operand,
        data: &mut PointerOperand,
        offset: &mut IntOperand,
        dynamic: &mut PointerOperand,
    )
        requires
            old(contract).wf(),
            old(contract).value_defined(arg),
            old(contract).function_defined(old(contract).next(), function),
            old(contract).pointer_defined(*old(data)),
            old(contract).int_defined(*old(offset)),
            old(contract).pointer_defined(*old(dynamic)),
        ensures
            final(contract).took_one(
                *old(contract),
                Step::EncodeTy {
                    load,
                    function,
                    ty: *ty,
                    arg,
                    data: *old(data),
                    offset: *old(offset),
                    dynamic: *old(dynamic),
                },
            ),
            *final(data) == pointer_part(old(contract).next(), 0, *old(data)),
            *final(offset) == int_part(old(contract).next(), 1, *old(offset)),
            *final(dynamic) == pointer_part(old(contract).next(), 2, *old(dynamic)),
            final(contract).pointer_defined(*final(data)),
            final(contract).int_defined(*final(offset)),
            final(contract).pointer_defined(*final(dynamic)),
    {
        let step: usize = contract.encode_ty(
            load,
            function,
            *ty,
            arg,
            (*data, *offset, *dynamic),
        );
        *data = PointerOperand::Register {
            register: Register { step, part: 0 },
            pointee: data.pointee(),
        };
        *offset = IntOperand::Register {
            register: Register { step, part: 1 },
            width: offset.width(),
        };
        *dynamic = PointerOperand::Register {
            register: Register { step, part: 2 },
            pointee: dynamic.pointee(),
        };
    }

    /// Decodes one value for each parameter onto the end of `args`. Returns the number
    /// of the step that yields them.
    pub fn decode<'a>(
        &self,
        contract: &mut Contract<'a>,
        function: FunctionRef,
        args: &mut Vec<Operand>,
        data: PointerOperand,
        length: IntOperand,
        spec: &'a Vec<Parameter>,
    ) -> (step: usize)
        requires
            old(contract).wf(),
            old(contract).function_defined(old(contract).next(), function),
            old(contract).pointer_defined(data),
            old(contract).int_defined(length),
        ensures
            final(contract).took_one(
                *old(contract),
                Step::Decode { function, data, length, parameters: spec },
            ),
            final(args)@ == old(args)@ + decoded(old(contract).next(), spec@.len()),
            forall|i: int|
                old(args)@.len() <= i < final(args)@.len() ==> final(contract).value_defined(
                    #[trigger] final(args)@[i],
                ),
            step == old(contract).steps@.len(),
    {
        let step: usize = contract.decode(function, data, length, spec);
        let ghost before = args@;
        let count: usize = spec.len();
        let mut part: usize = 0;
        while part < count
            invariant
                part <= count,
                args@ == before + decoded(step as int, part as nat),
            decreases count - part,
        {
            args.push(Operand::Other(Register { step, part }));
            part += 1;
            assert(decoded(step as int, part as nat) =~= decoded(
                step as int,
                (part - 1) as nat,
            ).push(Operand::Other(Register { step, part: (part - 1) as usize })));
        }
        step
    }
}

} // verus!
