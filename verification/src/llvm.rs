//! The calls into LLVM.
//!
//! An LLVM value, function or block is opaque here. What is known of one is its kind,
//! whether it is a given constant, and which calls it was handed to. What instructions
//! LLVM adds for a call is not stated.
use crate::ir::{Kind, Pointee, valid_width};
use inkwell::basic_block::BasicBlock;
use inkwell::builder::{Builder, BuilderError};
use inkwell::context::Context;
use inkwell::module::{Linkage, Module};
use inkwell::types::{BasicMetadataTypeEnum, BasicType, BasicTypeEnum};
use inkwell::values::{BasicMetadataValueEnum, BasicValueEnum, FunctionValue};
use inkwell::{AddressSpace, IntPredicate};
use inkwell::attributes::{Attribute, AttributeLoc};
use vstd::prelude::*;

verus! {

/// `inkwell::context::Context`: the owner of types and constants.
#[verifier::external_type_specification]
#[verifier::external_body]
pub struct ExContext(Context);

/// `inkwell::builder::Builder`: adds instructions to a block.
#[verifier::external_type_specification]
#[verifier::external_body]
pub struct ExBuilder<'ctx>(Builder<'ctx>);

/// `inkwell::builder::BuilderError`: why a builder refused a call.
#[verifier::external_type_specification]
#[verifier::external_body]
pub struct ExBuilderError(BuilderError);

/// `inkwell::module::Module`: holds functions.
#[verifier::external_type_specification]
#[verifier::external_body]
pub struct ExModule<'ctx>(Module<'ctx>);

/// `inkwell::basic_block::BasicBlock`: a block of a function.
#[verifier::external_type_specification]
#[verifier::external_body]
pub struct ExBasicBlock<'ctx>(BasicBlock<'ctx>);

/// `inkwell::types::BasicTypeEnum`: a type that values can have.
#[verifier::external_type_specification]
#[verifier::external_body]
pub struct ExBasicTypeEnum<'ctx>(BasicTypeEnum<'ctx>);

/// `inkwell::values::BasicValueEnum`: a value.
#[verifier::external_type_specification]
#[verifier::external_body]
pub struct ExBasicValueEnum<'ctx>(BasicValueEnum<'ctx>);

/// `inkwell::values::FunctionValue`: a function of a module.
#[verifier::external_type_specification]
#[verifier::external_body]
pub struct ExFunctionValue<'ctx>(FunctionValue<'ctx>);

/// A call on a builder, with what it was given and what it gave back. LLVM may give
/// back a constant or an earlier value instead of adding an instruction.
pub ghost enum BuilderCall<'ctx> {
    PositionAtEnd { block: BasicBlock<'ctx> },
    /// `returned` is what was read of the call's value.
    Call {
        callee: FunctionValue<'ctx>,
        args: Seq<BasicValueEnum<'ctx>>,
        name: Seq<char>,
        returned: Option<BasicValueEnum<'ctx>>,
    },
    IntAdd {
        lhs: BasicValueEnum<'ctx>,
        rhs: BasicValueEnum<'ctx>,
        result: BasicValueEnum<'ctx>,
    },
    IntSub {
        lhs: BasicValueEnum<'ctx>,
        rhs: BasicValueEnum<'ctx>,
        result: BasicValueEnum<'ctx>,
    },
    IntUnsignedDiv {
        lhs: BasicValueEnum<'ctx>,
        rhs: BasicValueEnum<'ctx>,
        result: BasicValueEnum<'ctx>,
    },
    IntEqual {
        lhs: BasicValueEnum<'ctx>,
        rhs: BasicValueEnum<'ctx>,
        name: Seq<char>,
        result: BasicValueEnum<'ctx>,
    },
    PointerCast {
        pointer: BasicValueEnum<'ctx>,
        width: u32,
        name: Seq<char>,
        result: BasicValueEnum<'ctx>,
    },
    PointerCastLike {
        pointer: BasicValueEnum<'ctx>,
        like: BasicValueEnum<'ctx>,
        name: Seq<char>,
        result: BasicValueEnum<'ctx>,
    },
    Alloca { width: u32, name: Seq<char>, result: BasicValueEnum<'ctx> },
    ArrayAlloca {
        width: u32,
        count: BasicValueEnum<'ctx>,
        name: Seq<char>,
        result: BasicValueEnum<'ctx>,
    },
    Load { pointer: BasicValueEnum<'ctx>, name: Seq<char>, result: BasicValueEnum<'ctx> },
    Store { pointer: BasicValueEnum<'ctx>, value: BasicValueEnum<'ctx> },
    CondBranch {
        condition: BasicValueEnum<'ctx>,
        then_block: BasicBlock<'ctx>,
        else_block: BasicBlock<'ctx>,
    },
    Return { value: BasicValueEnum<'ctx> },
    Unreachable,
}

/// A call that adds a function to a module or changes one of its functions.
pub ghost enum ModuleCall<'ctx> {
    AddFunction {
        name: Seq<char>,
        ret: Option<BasicTypeEnum<'ctx>>,
        params: Seq<BasicTypeEnum<'ctx>>,
        external: bool,
        result: FunctionValue<'ctx>,
    },
    NoReturn { function: FunctionValue<'ctx> },
    AppendBlock { function: FunctionValue<'ctx>, name: Seq<char>, result: BasicBlock<'ctx> },
}

/// The calls that the builder has carried out, in order.
pub uninterp spec fn builder_calls(builder: Builder<'_>) -> Seq<BuilderCall<'_>>;

/// The builder has been told where to add instructions.
pub uninterp spec fn positioned(builder: Builder<'_>) -> bool;

/// The calls that the module has carried out, in order.
pub uninterp spec fn module_calls(module: Module<'_>) -> Seq<ModuleCall<'_>>;

/// The functions of the module by name.
pub uninterp spec fn functions(module: Module<'_>) -> Map<Seq<char>, FunctionValue<'_>>;

/// The names that functions and other globals of the module have.
pub uninterp spec fn taken(module: Module<'_>) -> Set<Seq<char>>;

/// The kind of the type's values.
pub uninterp spec fn type_kind(ty: BasicTypeEnum<'_>) -> Kind;

/// The text of the function's type: its return type, a space, then its parameters in
/// brackets.
pub uninterp spec fn type_text(function: FunctionValue<'_>) -> Seq<char>;

/// The kind of what the function's type says that it returns; `None` where that is nothing.
pub uninterp spec fn return_kind(function: FunctionValue<'_>) -> Option<Kind>;

/// The value's kind: an integer of some width, a pointer to integers of some width, a
/// pointer to `Other` for any other pointer, and `Other` for any other value.
pub uninterp spec fn value_kind(value: BasicValueEnum<'_>) -> Kind;

/// The value is the constant `number`, as far as that fits into `width` bits.
pub uninterp spec fn is_constant(value: BasicValueEnum<'_>, width: u32, number: u64) -> bool;

/// The value is a null pointer.
pub uninterp spec fn is_null(value: BasicValueEnum<'_>) -> bool;

/// A name that LLVM takes as it is: it is not empty and has no character zero.
pub open spec fn is_name(name: Seq<char>) -> bool {
    name.len() > 0 && forall|i: int| 0 <= i < name.len() ==> #[trigger] name[i] != '\0'
}

/// The text of a function's type starts with an integer type, so the function returns an
/// integer or a pointer.
pub open spec fn returns_word(text: Seq<char>) -> bool {
    text.len() >= 2 && text[0] == 'i' && '0' <= text[1] <= '9'
}

/// What adding a function under a name does: it takes that name if the name is free, and
/// some other one if it is not. No function that was there loses its name.
pub open spec fn added<'ctx>(
    before: Module<'ctx>,
    after: Module<'ctx>,
    name: Seq<char>,
    function: FunctionValue<'ctx>,
) -> bool {
    &&& functions(before).submap_of(functions(after))
    &&& taken(before).subset_of(taken(after))
    &&& !taken(before).contains(name) ==> {
        &&& functions(after) == functions(before).insert(name, function)
        &&& taken(after) == taken(before).insert(name)
    }
}

/// What a call on a builder does: it is carried out exactly when the builder has a
/// position, and leaves that position alone.
pub open spec fn built<'ctx>(
    before: Builder<'ctx>,
    after: Builder<'ctx>,
    done: Option<BuilderCall<'ctx>>,
) -> bool {
    &&& done is Some <==> positioned(before)
    &&& positioned(after) == positioned(before)
    &&& done matches Some(call) ==> builder_calls(after) == builder_calls(before).push(call)
    &&& done is None ==> builder_calls(after) == builder_calls(before)
}

/// `Context::custom_width_int_type`: the type of integers of `width` bits.
#[verifier::external_body]
pub(crate) fn int_type<'ctx>(context: &'ctx Context, width: u32) -> (ty: BasicTypeEnum<'ctx>)
    requires
        valid_width(width),
    ensures
        type_kind(ty) == Kind::Int(width),
{
    context.custom_width_int_type(width).into()
}

/// `IntType::ptr_type`: the type of pointers to integers of `width` bits.
#[verifier::external_body]
pub(crate) fn pointer_type<'ctx>(context: &'ctx Context, width: u32) -> (ty: BasicTypeEnum<'ctx>)
    requires
        valid_width(width),
    ensures
        type_kind(ty) == Kind::Pointer(Pointee::Int(width)),
{
    context.custom_width_int_type(width).ptr_type(AddressSpace::default()).into()
}

/// `Module::add_function`, for a function that returns nothing. The function has the type
/// that is asked for, whatever its name. Where `external` does not hold, no linkage is asked
/// for.
#[verifier::external_body]
pub(crate) fn add_void_function<'ctx>(
    context: &'ctx Context,
    module: &mut Module<'ctx>,
    name: &str,
    params: &[BasicTypeEnum<'ctx>],
    external: bool,
) -> (function: FunctionValue<'ctx>)
    requires
        is_name(name@),
    ensures
        added(*old(module), *final(module), name@, function),
        module_calls(*final(module)) == module_calls(*old(module)).push(
            ModuleCall::AddFunction {
                name: name@,
                ret: None,
                params: params@,
                external,
                result: function,
            },
        ),
        return_kind(function) is None,
{
    let params: Vec<BasicMetadataTypeEnum<'ctx>> = params.iter().map(|p| (*p).into()).collect();
    let ty = context.void_type().fn_type(&params, false);
    module.add_function(name, ty, external.then_some(Linkage::External))
}

/// `Module::add_function`, for a function that returns a value. The function has the type
/// that is asked for, whatever its name. Where `external` does not hold, no linkage is asked
/// for.
#[verifier::external_body]
pub(crate) fn add_value_function<'ctx>(
    module: &mut Module<'ctx>,
    name: &str,
    ret: BasicTypeEnum<'ctx>,
    params: &[BasicTypeEnum<'ctx>],
    external: bool,
) -> (function: FunctionValue<'ctx>)
    requires
        is_name(name@),
    ensures
        added(*old(module), *final(module), name@, function),
        module_calls(*final(module)) == module_calls(*old(module)).push(
            ModuleCall::AddFunction {
                name: name@,
                ret: Some(ret),
                params: params@,
                external,
                result: function,
            },
        ),
        return_kind(function) == Some(type_kind(ret)),
{
    let params: Vec<BasicMetadataTypeEnum<'ctx>> = params.iter().map(|p| (*p).into()).collect();
    module.add_function(name, ret.fn_type(&params, false), external.then_some(Linkage::External))
}

/// `Module::get_function`: the function of that name, if there is one.
#[verifier::external_body]
pub(crate) fn get_function<'ctx>(module: &Module<'ctx>, name: &str) -> (function: Option<
    FunctionValue<'ctx>,
>)
    requires
        is_name(name@),
    ensures
        match function {
            Some(f) => functions(*module).contains_key(name@) && functions(*module)[name@] == f,
            None => !functions(*module).contains_key(name@),
        },
{
    module.get_function(name)
}

/// `FunctionValue::add_attribute` with the attribute `noreturn`, on a function of the
/// module.
#[verifier::external_body]
pub(crate) fn set_no_return<'ctx>(module: &mut Module<'ctx>, function: FunctionValue<'ctx>)
    ensures
        functions(*final(module)) == functions(*old(module)),
        taken(*final(module)) == taken(*old(module)),
        module_calls(*final(module)) == module_calls(*old(module)).push(
            ModuleCall::NoReturn { function },
        ),
{
    let kind = Attribute::get_named_enum_kind_id("noreturn");
    let attribute = module.get_context().create_enum_attribute(kind, 0);
    function.add_attribute(AttributeLoc::Function, attribute);
}

/// `ContextRef::append_basic_block`: a new last block of a function of the module. LLVM may
/// add a number to the name.
#[verifier::external_body]
pub(crate) fn append_basic_block<'ctx>(
    module: &mut Module<'ctx>,
    function: FunctionValue<'ctx>,
    name: &str,
) -> (block: BasicBlock<'ctx>)
    ensures
        functions(*final(module)) == functions(*old(module)),
        taken(*final(module)) == taken(*old(module)),
        module_calls(*final(module)) == module_calls(*old(module)).push(
            ModuleCall::AppendBlock { function, name: name@, result: block },
        ),
{
    module.get_context().append_basic_block(function, name)
}

/// `IntType::const_int`, without sign extension.
#[verifier::external_body]
pub(crate) fn const_int<'ctx>(context: &'ctx Context, width: u32, number: u64) -> (value:
    BasicValueEnum<'ctx>)
    requires
        valid_width(width),
    ensures
        value_kind(value) == Kind::Int(width),
        is_constant(value, width, number),
{
    context.custom_width_int_type(width).const_int(number, false).into()
}

/// `PointerType::const_null`, for a pointer to integers of `width` bits.
#[verifier::external_body]
pub(crate) fn const_null<'ctx>(context: &'ctx Context, width: u32) -> (value: BasicValueEnum<'ctx>)
    requires
        valid_width(width),
    ensures
        value_kind(value) == Kind::Pointer(Pointee::Int(width)),
        is_null(value),
{
    context.custom_width_int_type(width).ptr_type(AddressSpace::default()).const_null().into()
}

/// `IntType::get_bit_width`, for a value that is an integer.
#[verifier::external_body]
pub(crate) fn int_width<'ctx>(value: BasicValueEnum<'ctx>) -> (width: Option<u32>)
    ensures
        match width {
            Some(w) => value_kind(value) == Kind::Int(w),
            None => !(value_kind(value) is Int),
        },
{
    match value {
        BasicValueEnum::IntValue(v) => Some(v.get_type().get_bit_width()),
        _ => None,
    }
}

/// `BasicValueEnum::is_pointer_value`.
#[verifier::external_body]
pub(crate) fn is_pointer<'ctx>(value: BasicValueEnum<'ctx>) -> (pointer: bool)
    ensures
        pointer == (value_kind(value) is Pointer),
{
    value.is_pointer_value()
}

/// `PointerType::eq`: the pointer's type is that of pointers to integers of `width` bits in
/// the pointer's own address space.
#[verifier::external_body]
pub(crate) fn points_to<'ctx>(value: BasicValueEnum<'ctx>, width: u32) -> (same: bool)
    requires
        value_kind(value) is Pointer,
        valid_width(width),
    ensures
        same == (value_kind(value) == Kind::Pointer(Pointee::Int(width))),
{
    let ty = value.into_pointer_value().get_type();
    ty == ty.get_context().custom_width_int_type(width).ptr_type(ty.get_address_space())
}

/// `FunctionType::print_to_string`: the text of the function's type. It starts with the
/// return type: an integer type, as in `i32`, for an integer and for a pointer to integers.
#[verifier::external_body]
pub(crate) fn print_type<'ctx>(function: FunctionValue<'ctx>) -> (text: String)
    ensures
        text@ == type_text(function),
        (return_kind(function) matches Some(kind) && kind.is_plain()) ==> returns_word(text@),
{
    function.get_type().print_to_string().to_string()
}

/// `Builder::position_at_end`: instructions go to the end of the block from now on.
#[verifier::external_body]
pub(crate) fn position_at_end<'ctx>(builder: &mut Builder<'ctx>, block: BasicBlock<'ctx>)
    ensures
        positioned(*final(builder)),
        builder_calls(*final(builder)) == builder_calls(*old(builder)).push(
            BuilderCall::PositionAtEnd { block },
        ),
{
    builder.position_at_end(block);
}

/// `Builder::build_call`, for the effect of the call. What the call returns is not read.
#[verifier::external_body]
pub(crate) fn build_call<'ctx>(
    builder: &mut Builder<'ctx>,
    callee: FunctionValue<'ctx>,
    args: &[BasicValueEnum<'ctx>],
    name: &str,
) -> (r: Result<(), BuilderError>)
    ensures
        built(
            *old(builder),
            *final(builder),
            match r {
                Ok(_) => Some(
                    BuilderCall::Call { callee, args: args@, name: name@, returned: None },
                ),
                Err(_) => None,
            },
        ),
{
    let args: Vec<BasicMetadataValueEnum<'ctx>> = args.iter().map(|a| (*a).into()).collect();
    builder.build_call(callee, &args, name).map(|_| ())
}

/// `Builder::build_call` and `CallSiteValue::try_as_basic_value`, for the value of the
/// call, which has the function's return type. The latter panics on values of some types,
/// such as tokens, so the function has to return an integer or a pointer.
#[verifier::external_body]
pub(crate) fn build_value_call<'ctx>(
    builder: &mut Builder<'ctx>,
    callee: FunctionValue<'ctx>,
    args: &[BasicValueEnum<'ctx>],
    name: &str,
) -> (r: Result<Option<BasicValueEnum<'ctx>>, BuilderError>)
    requires
        returns_word(type_text(callee)),
    ensures
        r matches Ok(returned) ==> returned is Some,
        r matches Ok(Some(value)) ==> return_kind(callee) == Some(value_kind(value)),
        built(
            *old(builder),
            *final(builder),
            match r {
                Ok(returned) => Some(
                    BuilderCall::Call { callee, args: args@, name: name@, returned },
                ),
                Err(_) => None,
            },
        ),
{
    let args: Vec<BasicMetadataValueEnum<'ctx>> = args.iter().map(|a| (*a).into()).collect();
    builder.build_call(callee, &args, name).map(|site| site.try_as_basic_value().basic())
}

/// `Builder::build_int_add`.
#[verifier::external_body]
pub(crate) fn build_int_add<'ctx>(
    builder: &mut Builder<'ctx>,
    lhs: BasicValueEnum<'ctx>,
    rhs: BasicValueEnum<'ctx>,
) -> (r: Result<BasicValueEnum<'ctx>, BuilderError>)
    requires
        value_kind(lhs) is Int,
        value_kind(lhs) == value_kind(rhs),
    ensures
        r matches Ok(result) ==> value_kind(result) == value_kind(lhs),
        built(
            *old(builder),
            *final(builder),
            match r {
                Ok(result) => Some(BuilderCall::IntAdd { lhs, rhs, result }),
                Err(_) => None,
            },
        ),
{
    builder.build_int_add(lhs.into_int_value(), rhs.into_int_value(), "").map(|v| v.into())
}

/// `Builder::build_int_sub`.
#[verifier::external_body]
pub(crate) fn build_int_sub<'ctx>(
    builder: &mut Builder<'ctx>,
    lhs: BasicValueEnum<'ctx>,
    rhs: BasicValueEnum<'ctx>,
) -> (r: Result<BasicValueEnum<'ctx>, BuilderError>)
    requires
        value_kind(lhs) is Int,
        value_kind(lhs) == value_kind(rhs),
    ensures
        r matches Ok(result) ==> value_kind(result) == value_kind(lhs),
        built(
            *old(builder),
            *final(builder),
            match r {
                Ok(result) => Some(BuilderCall::IntSub { lhs, rhs, result }),
                Err(_) => None,
            },
        ),
{
    builder.build_int_sub(lhs.into_int_value(), rhs.into_int_value(), "").map(|v| v.into())
}

/// `Builder::build_int_unsigned_div`.
#[verifier::external_body]
pub(crate) fn build_int_unsigned_div<'ctx>(
    builder: &mut Builder<'ctx>,
    lhs: BasicValueEnum<'ctx>,
    rhs: BasicValueEnum<'ctx>,
) -> (r: Result<BasicValueEnum<'ctx>, BuilderError>)
    requires
        value_kind(lhs) is Int,
        value_kind(lhs) == value_kind(rhs),
    ensures
        r matches Ok(result) ==> value_kind(result) == value_kind(lhs),
        built(
            *old(builder),
            *final(builder),
            match r {
                Ok(result) => Some(BuilderCall::IntUnsignedDiv { lhs, rhs, result }),
                Err(_) => None,
            },
        ),
{
    builder.build_int_unsigned_div(lhs.into_int_value(), rhs.into_int_value(), "").map(|v| v.into())
}

/// `Builder::build_int_compare` with the predicate `EQ`.
#[verifier::external_body]
pub(crate) fn build_int_equal<'ctx>(
    builder: &mut Builder<'ctx>,
    lhs: BasicValueEnum<'ctx>,
    rhs: BasicValueEnum<'ctx>,
    name: &str,
) -> (r: Result<BasicValueEnum<'ctx>, BuilderError>)
    requires
        value_kind(lhs) is Int,
        value_kind(lhs) == value_kind(rhs),
    ensures
        r matches Ok(result) ==> value_kind(result) == Kind::Int(1),
        built(
            *old(builder),
            *final(builder),
            match r {
                Ok(result) => Some(BuilderCall::IntEqual { lhs, rhs, name: name@, result }),
                Err(_) => None,
            },
        ),
{
    let lhs = lhs.into_int_value();
    let rhs = rhs.into_int_value();
    builder.build_int_compare(IntPredicate::EQ, lhs, rhs, name).map(|v| v.into())
}

/// `Builder::build_pointer_cast`, to a pointer to integers of `width` bits.
#[verifier::external_body]
pub(crate) fn build_pointer_cast<'ctx>(
    context: &'ctx Context,
    builder: &mut Builder<'ctx>,
    pointer: BasicValueEnum<'ctx>,
    width: u32,
    name: &str,
) -> (r: Result<BasicValueEnum<'ctx>, BuilderError>)
    requires
        valid_width(width),
        value_kind(pointer) is Pointer,
    ensures
        r matches Ok(result) ==> value_kind(result) == Kind::Pointer(Pointee::Int(width)),
        built(
            *old(builder),
            *final(builder),
            match r {
                Ok(result) => Some(
                    BuilderCall::PointerCast { pointer, width, name: name@, result },
                ),
                Err(_) => None,
            },
        ),
{
    let ty = context.custom_width_int_type(width).ptr_type(AddressSpace::default());
    builder.build_pointer_cast(pointer.into_pointer_value(), ty, name).map(|v| v.into())
}

/// `Builder::build_pointer_cast`, to the type of another pointer.
#[verifier::external_body]
pub(crate) fn build_pointer_cast_like<'ctx>(
    builder: &mut Builder<'ctx>,
    pointer: BasicValueEnum<'ctx>,
    like: BasicValueEnum<'ctx>,
    name: &str,
) -> (r: Result<BasicValueEnum<'ctx>, BuilderError>)
    requires
        value_kind(pointer) is Pointer,
        value_kind(like) is Pointer,
    ensures
        r matches Ok(result) ==> value_kind(result) == value_kind(like),
        built(
            *old(builder),
            *final(builder),
            match r {
                Ok(result) => Some(
                    BuilderCall::PointerCastLike { pointer, like, name: name@, result },
                ),
                Err(_) => None,
            },
        ),
{
    let ty = like.into_pointer_value().get_type();
    builder.build_pointer_cast(pointer.into_pointer_value(), ty, name).map(|v| v.into())
}

/// `Builder::build_alloca`, for an integer of `width` bits.
#[verifier::external_body]
pub(crate) fn build_alloca<'ctx>(
    context: &'ctx Context,
    builder: &mut Builder<'ctx>,
    width: u32,
    name: &str,
) -> (r: Result<BasicValueEnum<'ctx>, BuilderError>)
    requires
        valid_width(width),
    ensures
        r matches Ok(result) ==> value_kind(result) == Kind::Pointer(Pointee::Int(width)),
        built(
            *old(builder),
            *final(builder),
            match r {
                Ok(result) => Some(BuilderCall::Alloca { width, name: name@, result }),
                Err(_) => None,
            },
        ),
{
    builder.build_alloca(context.custom_width_int_type(width), name).map(|v| v.into())
}

/// `Builder::build_array_alloca`, for integers of `width` bits.
#[verifier::external_body]
pub(crate) fn build_array_alloca<'ctx>(
    context: &'ctx Context,
    builder: &mut Builder<'ctx>,
    width: u32,
    count: BasicValueEnum<'ctx>,
    name: &str,
) -> (r: Result<BasicValueEnum<'ctx>, BuilderError>)
    requires
        valid_width(width),
        value_kind(count) is Int,
    ensures
        r matches Ok(result) ==> value_kind(result) == Kind::Pointer(Pointee::Int(width)),
        built(
            *old(builder),
            *final(builder),
            match r {
                Ok(result) => Some(
                    BuilderCall::ArrayAlloca { width, count, name: name@, result },
                ),
                Err(_) => None,
            },
        ),
{
    let ty = context.custom_width_int_type(width);
    builder.build_array_alloca(ty, count.into_int_value(), name).map(|v| v.into())
}

/// `Builder::build_load`, of an integer.
#[verifier::external_body]
pub(crate) fn build_load<'ctx>(
    builder: &mut Builder<'ctx>,
    pointer: BasicValueEnum<'ctx>,
    name: &str,
) -> (r: Result<BasicValueEnum<'ctx>, BuilderError>)
    requires
        value_kind(pointer) matches Kind::Pointer(Pointee::Int(_)),
    ensures
        r matches Ok(result) ==> Kind::Pointer(Pointee::Int(value_kind(result)->Int_0))
            == value_kind(pointer) && value_kind(result) is Int,
        built(
            *old(builder),
            *final(builder),
            match r {
                Ok(result) => Some(BuilderCall::Load { pointer, name: name@, result }),
                Err(_) => None,
            },
        ),
{
    builder.build_load(pointer.into_pointer_value(), name)
}

/// `Builder::build_store`, of an integer.
#[verifier::external_body]
pub(crate) fn build_store<'ctx>(
    builder: &mut Builder<'ctx>,
    pointer: BasicValueEnum<'ctx>,
    value: BasicValueEnum<'ctx>,
) -> (r: Result<(), BuilderError>)
    requires
        value_kind(value) is Int,
        value_kind(pointer) == Kind::Pointer(Pointee::Int(value_kind(value)->Int_0)),
    ensures
        built(
            *old(builder),
            *final(builder),
            match r {
                Ok(_) => Some(BuilderCall::Store { pointer, value }),
                Err(_) => None,
            },
        ),
{
    builder.build_store(pointer.into_pointer_value(), value).map(|_| ())
}

/// `Builder::build_conditional_branch`.
#[verifier::external_body]
pub(crate) fn build_conditional_branch<'ctx>(
    builder: &mut Builder<'ctx>,
    condition: BasicValueEnum<'ctx>,
    then_block: BasicBlock<'ctx>,
    else_block: BasicBlock<'ctx>,
) -> (r: Result<(), BuilderError>)
    requires
        value_kind(condition) == Kind::Int(1),
    ensures
        built(
            *old(builder),
            *final(builder),
            match r {
                Ok(_) => Some(BuilderCall::CondBranch { condition, then_block, else_block }),
                Err(_) => None,
            },
        ),
{
    let condition = condition.into_int_value();
    builder.build_conditional_branch(condition, then_block, else_block).map(|_| ())
}

/// `Builder::build_return`, of a value.
#[verifier::external_body]
pub(crate) fn build_return<'ctx>(builder: &mut Builder<'ctx>, value: BasicValueEnum<'ctx>) -> (r:
    Result<(), BuilderError>)
    ensures
        built(
            *old(builder),
            *final(builder),
            match r {
                Ok(_) => Some(BuilderCall::Return { value }),
                Err(_) => None,
            },
        ),
{
    builder.build_return(Some(&value)).map(|_| ())
}

/// `Builder::build_unreachable`.
#[verifier::external_body]
pub(crate) fn build_unreachable<'ctx>(builder: &mut Builder<'ctx>) -> (r: Result<
    (),
    BuilderError,
>)
    ensures
        built(
            *old(builder),
            *final(builder),
            match r {
                Ok(_) => Some(BuilderCall::Unreachable),
                Err(_) => None,
            },
        ),
{
    builder.build_unreachable().map(|_| ())
}

} // verus!
