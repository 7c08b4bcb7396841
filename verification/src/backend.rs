//! The boundary to LLVM, reached through `inkwell`.
//!
//! Everything in this file is taken on trust: Verus reads the contracts of
//! these functions and never their bodies. Each body is one call into
//! `inkwell` and the conversions around it. What a call does to the LLVM
//! module cannot be stated here, so these functions promise nothing about it;
//! `Emitter` records each request beside the call that makes it.
//!
//! The handle types of this file keep LLVM's own typing rules out of the rest
//! of the crate. Their fields are private and only the functions below make
//! them, so a `Slot` is always a stack slot that holds a cell address, an
//! `Address` always points at a byte, and an `Insertion` is always positioned
//! inside the function being built. The conversions `into_pointer_value` and
//! `into_int_value`, which panic on a value of another kind, are applied only
//! to values loaded through such handles.
use inkwell::basic_block::BasicBlock;
use inkwell::builder::Builder;
use inkwell::context::Context;
use inkwell::module::Linkage;
use inkwell::module::Module;
use inkwell::values::BasicValueEnum;
use inkwell::values::FunctionValue;
use inkwell::values::IntValue;
use inkwell::values::PointerValue;
use inkwell::AddressSpace;
use inkwell::IntPredicate;
use vstd::prelude::*;

verus! {

/// `inkwell::context::Context`, the owner of everything LLVM builds, opaque to Verus.
#[verifier::external_type_specification]
#[verifier::external_body]
pub struct ExContext(Context);

/// `inkwell::module::Module`, one unit of LLVM IR, opaque to Verus.
#[verifier::external_type_specification]
#[verifier::external_body]
pub struct ExModule<'ctx>(Module<'ctx>);

/// `inkwell::builder::Builder`, the instruction builder, opaque to Verus.
#[verifier::external_type_specification]
#[verifier::external_body]
pub struct ExBuilder<'ctx>(Builder<'ctx>);

/// `inkwell::basic_block::BasicBlock`, a handle to a basic block, opaque to Verus.
#[verifier::external_type_specification]
#[verifier::external_body]
pub struct ExBasicBlock<'ctx>(BasicBlock<'ctx>);

/// `inkwell::values::FunctionValue`, a handle to a function, opaque to Verus.
#[verifier::external_type_specification]
#[verifier::external_body]
pub struct ExFunctionValue<'ctx>(FunctionValue<'ctx>);

/// `inkwell::values::PointerValue`, a handle to a value of pointer type, opaque to Verus.
#[verifier::external_type_specification]
#[verifier::external_body]
pub struct ExPointerValue<'ctx>(PointerValue<'ctx>);

/// `inkwell::values::IntValue`, a handle to a value of integer type, opaque to Verus.
#[verifier::external_type_specification]
#[verifier::external_body]
pub struct ExIntValue<'ctx>(IntValue<'ctx>);

/// An instruction builder that is positioned at the end of a basic block.
pub struct Insertion<'ctx> {
    raw: Builder<'ctx>,
}

/// A stack slot of type `i8*`: it holds the address of a tape cell.
pub struct Slot<'ctx> {
    raw: PointerValue<'ctx>,
}

/// A value of type `i8*`: the address of a tape cell.
pub struct Address<'ctx> {
    raw: PointerValue<'ctx>,
}

/// The declaration of the runtime's allocator, `i8* (i64, i64)`.
pub struct Allocator<'ctx> {
    raw: FunctionValue<'ctx>,
}

/// The declaration of the runtime's "read one character", `i32 ()`.
pub struct Reader<'ctx> {
    raw: FunctionValue<'ctx>,
}

/// The declaration of the runtime's "write one character", `i32 (i32)`.
pub struct Writer<'ctx> {
    raw: FunctionValue<'ctx>,
}

/// `Context::create_module`: a new, empty module named `name`.
#[verifier::external_body]
pub(crate) fn create_module<'ctx>(context: &'ctx Context, name: &str) -> Module<'ctx> {
    context.create_module(name)
}

/// `Module::add_function` with the type `i8* (i64, i64)` and external
/// linkage: declares the allocator under `name`.
#[verifier::external_body]
pub(crate) fn declare_allocator<'ctx>(
    module: &Module<'ctx>,
    context: &'ctx Context,
    name: &str,
) -> Allocator<'ctx> {
    let long = context.i64_type();
    let ty = context.i8_type().ptr_type(AddressSpace::default()).fn_type(
        &[long.into(), long.into()],
        false,
    );
    Allocator { raw: module.add_function(name, ty, Some(Linkage::External)) }
}

/// `Module::add_function` with the type `i32 ()` and external linkage:
/// declares the character source under `name`.
#[verifier::external_body]
pub(crate) fn declare_reader<'ctx>(
    module: &Module<'ctx>,
    context: &'ctx Context,
    name: &str,
) -> Reader<'ctx> {
    let ty = context.i32_type().fn_type(&[], false);
    Reader { raw: module.add_function(name, ty, Some(Linkage::External)) }
}

/// `Module::add_function` with the type `i32 (i32)` and external linkage:
/// declares the character sink under `name`.
#[verifier::external_body]
pub(crate) fn declare_writer<'ctx>(
    module: &Module<'ctx>,
    context: &'ctx Context,
    name: &str,
) -> Writer<'ctx> {
    let word = context.i32_type();
    let ty = word.fn_type(&[word.into()], false);
    Writer { raw: module.add_function(name, ty, Some(Linkage::External)) }
}

/// `Module::add_function` with the type `i32 ()` and external linkage:
/// declares the function that the program is built in.
#[verifier::external_body]
pub(crate) fn declare_entry<'ctx>(
    module: &Module<'ctx>,
    context: &'ctx Context,
    name: &str,
) -> FunctionValue<'ctx> {
    let ty = context.i32_type().fn_type(&[], false);
    module.add_function(name, ty, Some(Linkage::External))
}

/// `Context::append_basic_block`: a new block named `name` at the end of
/// `function`.
#[verifier::external_body]
pub(crate) fn append_block<'ctx>(
    context: &'ctx Context,
    function: &FunctionValue<'ctx>,
    name: &str,
) -> BasicBlock<'ctx> {
    context.append_basic_block(*function, name)
}

/// `Context::create_builder`, then `Builder::position_at_end`: a builder
/// that appends to `block`.
#[verifier::external_body]
pub(crate) fn insertion_at<'ctx>(context: &'ctx Context, block: &BasicBlock<'ctx>) -> Insertion<
    'ctx,
> {
    let raw = context.create_builder();
    raw.position_at_end(*block);
    Insertion { raw }
}

/// `Builder::position_at_end`: from now on `at` appends to `block`.
#[verifier::external_body]
pub(crate) fn position_at_end<'ctx>(at: &Insertion<'ctx>, block: &BasicBlock<'ctx>) {
    at.raw.position_at_end(*block)
}

/// `Builder::build_alloca` with the type `i8*`: a stack slot for one cell
/// address.
#[verifier::external_body]
pub(crate) fn reserve_slot<'ctx>(at: &Insertion<'ctx>, context: &'ctx Context, name: &str) -> Slot<
    'ctx,
> {
    let ty = context.i8_type().ptr_type(AddressSpace::default());
    Slot { raw: at.raw.build_alloca(ty, name) }
}

/// `Builder::build_call` of the allocator with the constants `count` and
/// `size`, then `CallSiteValue::try_as_basic_value`: `Some` with the address
/// the call yields, `None` if it yields no pointer.
#[verifier::external_body]
pub(crate) fn call_allocator<'ctx>(
    at: &Insertion<'ctx>,
    context: &'ctx Context,
    allocator: &Allocator<'ctx>,
    count: u64,
    size: u64,
    name: &str,
) -> Option<Address<'ctx>> {
    let long = context.i64_type();
    let args = [long.const_int(count, false).into(), long.const_int(size, false).into()];
    match at.raw.build_call(allocator.raw, &args, name).try_as_basic_value().left() {
        Some(BasicValueEnum::PointerValue(raw)) => Some(Address { raw }),
        _ => None,
    }
}

/// `Builder::build_call` of the character source without arguments, then
/// `CallSiteValue::try_as_basic_value`: `Some` with the integer the call
/// yields, `None` if it yields no integer.
#[verifier::external_body]
pub(crate) fn call_reader<'ctx>(at: &Insertion<'ctx>, reader: &Reader<'ctx>, name: &str) -> Option<
    IntValue<'ctx>,
> {
    match at.raw.build_call(reader.raw, &[], name).try_as_basic_value().left() {
        Some(BasicValueEnum::IntValue(raw)) => Some(raw),
        _ => None,
    }
}

/// `Builder::build_call` of the character sink with `arg`; what the call
/// yields is dropped.
#[verifier::external_body]
pub(crate) fn call_writer<'ctx>(
    at: &Insertion<'ctx>,
    writer: &Writer<'ctx>,
    arg: &IntValue<'ctx>,
    name: &str,
) {
    at.raw.build_call(writer.raw, &[(*arg).into()], name);
}

/// `Builder::build_store` of an address into a slot.
#[verifier::external_body]
pub(crate) fn save<'ctx>(at: &Insertion<'ctx>, slot: &Slot<'ctx>, address: &Address<'ctx>) {
    at.raw.build_store(slot.raw, address.raw);
}

/// `Builder::build_load` from a slot: the address it holds.
#[verifier::external_body]
pub(crate) fn fetch<'ctx>(at: &Insertion<'ctx>, slot: &Slot<'ctx>, name: &str) -> Address<'ctx> {
    Address { raw: at.raw.build_load(slot.raw, name).into_pointer_value() }
}

/// `Builder::build_load` from an address: the byte there.
#[verifier::external_body]
pub(crate) fn load<'ctx>(at: &Insertion<'ctx>, address: &Address<'ctx>, name: &str) -> IntValue<
    'ctx,
> {
    at.raw.build_load(address.raw, name).into_int_value()
}

/// `Builder::build_store` of a byte at an address.
#[verifier::external_body]
pub(crate) fn store<'ctx>(at: &Insertion<'ctx>, address: &Address<'ctx>, value: &IntValue<'ctx>) {
    at.raw.build_store(address.raw, *value);
}

/// `Builder::build_int_add` of `value` and the constant `amt`, made with
/// `IntType::const_int` in the type of `value`.
#[verifier::external_body]
pub(crate) fn add_constant<'ctx>(
    at: &Insertion<'ctx>,
    value: &IntValue<'ctx>,
    amt: i32,
    name: &str,
) -> IntValue<'ctx> {
    at.raw.build_int_add(*value, value.get_type().const_int(amt as u64, false), name)
}

/// `Builder::build_ptr_to_int` to `i64`: the address as a number.
#[verifier::external_body]
pub(crate) fn address_to_long<'ctx>(
    at: &Insertion<'ctx>,
    context: &'ctx Context,
    address: &Address<'ctx>,
    name: &str,
) -> IntValue<'ctx> {
    at.raw.build_ptr_to_int(address.raw, context.i64_type(), name)
}

/// `Builder::build_int_to_ptr` to `i8*`: the number as an address.
#[verifier::external_body]
pub(crate) fn long_to_address<'ctx>(
    at: &Insertion<'ctx>,
    context: &'ctx Context,
    long: &IntValue<'ctx>,
    name: &str,
) -> Address<'ctx> {
    let ty = context.i8_type().ptr_type(AddressSpace::default());
    Address { raw: at.raw.build_int_to_ptr(*long, ty, name) }
}

/// `Builder::build_int_s_extend` to `i32`.
#[verifier::external_body]
pub(crate) fn sign_extend<'ctx>(
    at: &Insertion<'ctx>,
    context: &'ctx Context,
    value: &IntValue<'ctx>,
    name: &str,
) -> IntValue<'ctx> {
    at.raw.build_int_s_extend(*value, context.i32_type(), name)
}

/// `Builder::build_int_truncate` to `i8`.
#[verifier::external_body]
pub(crate) fn truncate<'ctx>(
    at: &Insertion<'ctx>,
    context: &'ctx Context,
    value: &IntValue<'ctx>,
    name: &str,
) -> IntValue<'ctx> {
    at.raw.build_int_truncate(*value, context.i8_type(), name)
}

/// `Builder::build_int_compare` with the predicate "not equal" of `value`
/// and the zero of its type.
#[verifier::external_body]
pub(crate) fn is_nonzero<'ctx>(
    at: &Insertion<'ctx>,
    value: &IntValue<'ctx>,
    name: &str,
) -> IntValue<'ctx> {
    at.raw.build_int_compare(IntPredicate::NE, *value, value.get_type().const_int(0, false), name)
}

/// `Builder::build_unconditional_branch` to `target`.
#[verifier::external_body]
pub(crate) fn jump<'ctx>(at: &Insertion<'ctx>, target: &BasicBlock<'ctx>) {
    at.raw.build_unconditional_branch(*target);
}

/// `Builder::build_conditional_branch` on `flag`.
#[verifier::external_body]
pub(crate) fn jump_if<'ctx>(
    at: &Insertion<'ctx>,
    flag: &IntValue<'ctx>,
    then_block: &BasicBlock<'ctx>,
    else_block: &BasicBlock<'ctx>,
) {
    at.raw.build_conditional_branch(*flag, *then_block, *else_block);
}

/// `Builder::build_free` of the memory at `address`.
#[verifier::external_body]
pub(crate) fn release<'ctx>(at: &Insertion<'ctx>, address: &Address<'ctx>) {
    at.raw.build_free(address.raw);
}

/// `Builder::build_return` of the `i32` constant zero.
#[verifier::external_body]
pub(crate) fn return_zero<'ctx>(at: &Insertion<'ctx>, context: &'ctx Context) {
    at.raw.build_return(Some(&context.i32_type().const_int(0, false)));
}

} // verus!
