//! Plain descriptions of what a WebAssembly module declares and of what a function that is being
//! translated refers to.
use vstd::prelude::*;

verus! {

/// Position of a function in the index space of a module: the imported functions come first, the
/// functions that the module defines follow.
pub type FunctionIndex = usize;

/// Position of a global variable in a module.
pub type GlobalIndex = usize;

/// Position of a table in a module.
pub type TableIndex = usize;

/// Position of a linear memory in a module.
pub type MemoryIndex = usize;

/// Position of a signature in a module.
pub type SignatureIndex = usize;

/// The type of a WebAssembly value.
#[derive(Clone, Copy, Debug, PartialEq, Eq, Structural)]
pub enum Type {
    I32,
    I64,
    F32,
    F64,
}

impl Type {
    /// How many bytes a value of this type takes.
    pub open spec fn width(self) -> nat {
        match self {
            Type::I32 => 4,
            Type::I64 => 8,
            Type::F32 => 4,
            Type::F64 => 8,
        }
    }

    /// How many bytes a value of this type takes.
    pub fn bytes(self) -> (n: u32)
        ensures
            n == self.width(),
            n == 4 || n == 8,
            n == 8 <==> (self is I64 || self is F64),
    {
        match self {
            Type::I32 => 4,
            Type::I64 => 8,
            Type::F32 => 4,
            Type::F64 => 8,
        }
    }
}

/// What a global variable starts with.
#[derive(Clone, Copy, Debug, PartialEq, Eq, Structural)]
pub enum GlobalInit {
    /// A 32-bit integer.
    I32Const(i32),
    /// A 64-bit integer.
    I64Const(i64),
    /// The bits of a 32-bit float.
    F32Const(u32),
    /// The bits of a 64-bit float.
    F64Const(u64),
    /// The variable is imported; nothing is written.
    Import,
    /// The value of another global variable.
    GlobalRef(GlobalIndex),
}

/// A global variable.
#[derive(Clone, Copy, Debug, PartialEq, Eq, Structural)]
pub struct Global {
    pub ty: Type,
    pub mutability: bool,
    pub initializer: GlobalInit,
}

/// What the elements of a table are.
#[derive(Clone, Copy, Debug, PartialEq, Eq, Structural)]
pub enum TableElementType {
    Val(Type),
    Func,
}

/// A table; `size` and `maximum` count elements.
#[derive(Clone, Copy, Debug, PartialEq, Eq, Structural)]
pub struct Table {
    pub ty: TableElementType,
    pub size: usize,
    pub maximum: Option<usize>,
}

/// A linear memory; `pages_count` and `maximum` count pages.
#[derive(Clone, Copy, Debug, PartialEq, Eq, Structural)]
pub struct Memory {
    pub pages_count: usize,
    pub maximum: Option<usize>,
}

/// How a function is called.
#[derive(Clone, Copy, Debug, PartialEq, Eq, Structural)]
pub enum CallConv {
    Native,
    SpiderWASM,
}

/// How a small integer argument is widened to a register.
#[derive(Clone, Copy, Debug, PartialEq, Eq, Structural)]
pub enum ArgumentExtension {
    Unextended,
    Uext,
    Sext,
}

/// What an argument is for.
#[derive(Clone, Copy, Debug, PartialEq, Eq, Structural)]
pub enum ArgumentPurpose {
    Normal,
    StructReturn,
    Link,
    FramePointer,
    CalleeSaved,
    VMContext,
}

/// One argument or one return value of a function.
#[derive(Clone, Copy, Debug, PartialEq, Eq, Structural)]
pub struct ArgumentType {
    pub value_type: Type,
    pub purpose: ArgumentPurpose,
    pub extension: ArgumentExtension,
}

impl ArgumentType {
    /// An ordinary argument of type `value_type`.
    pub open spec fn normal(value_type: Type) -> ArgumentType {
        ArgumentType {
            value_type,
            purpose: ArgumentPurpose::Normal,
            extension: ArgumentExtension::Unextended,
        }
    }

    /// An ordinary argument of type `value_type`.
    pub fn new(value_type: Type) -> (arg: ArgumentType)
        ensures
            arg == ArgumentType::normal(value_type),
            arg.value_type == value_type,
            arg.purpose is Normal,
            arg.extension is Unextended,
    {
        ArgumentType {
            value_type,
            purpose: ArgumentPurpose::Normal,
            extension: ArgumentExtension::Unextended,
        }
    }
}

/// The signature of a function.
#[derive(Debug)]
pub struct Signature {
    pub call_conv: CallConv,
    pub argument_bytes: Option<u32>,
    pub argument_types: Vec<ArgumentType>,
    pub return_types: Vec<ArgumentType>,
}

/// A signature as a mathematical value.
#[verifier::ext_equal]
pub struct SignatureView {
    pub call_conv: CallConv,
    pub argument_bytes: Option<u32>,
    pub argument_types: Seq<ArgumentType>,
    pub return_types: Seq<ArgumentType>,
}

impl View for Signature {
    type V = SignatureView;

    open spec fn view(&self) -> SignatureView {
        SignatureView {
            call_conv: self.call_conv,
            argument_bytes: self.argument_bytes,
            argument_types: self.argument_types@,
            return_types: self.return_types@,
        }
    }
}

impl Signature {
    /// A second copy of the signature.
    pub fn duplicate(&self) -> (copy: Signature)
        ensures
            copy@ == self@,
            copy.call_conv == self.call_conv,
            copy.argument_bytes == self.argument_bytes,
            copy.argument_types@ == self.argument_types@,
            copy.return_types@ == self.return_types@,
    {
        Signature {
            call_conv: self.call_conv,
            argument_bytes: self.argument_bytes,
            argument_types: vstd::slice::slice_to_vec(self.argument_types.as_slice()),
            return_types: vstd::slice::slice_to_vec(self.return_types.as_slice()),
        }
    }
}

/// A function that a function body refers to by name.
#[derive(Debug)]
pub struct ExtFuncData {
    pub name: Vec<u8>,
    pub signature: Signature,
}

/// A named function as a mathematical value.
#[verifier::ext_equal]
pub struct ExtFuncView {
    pub name: Seq<u8>,
    pub signature: SignatureView,
}

impl View for ExtFuncData {
    type V = ExtFuncView;

    open spec fn view(&self) -> ExtFuncView {
        ExtFuncView { name: self.name@, signature: self.signature@ }
    }
}

/// A function that the body being translated has imported, by its number in that body.
#[derive(Clone, Copy, Debug, PartialEq, Eq, Structural)]
pub struct FuncRef(pub u32);

/// A signature that the body being translated has imported, by its number in that body.
#[derive(Clone, Copy, Debug, PartialEq, Eq, Structural)]
pub struct SigRef(pub u32);

/// A heap of the body being translated, by its number in that body.
#[derive(Clone, Copy, Debug, PartialEq, Eq, Structural)]
pub struct Heap(pub u32);

/// A value that the body being translated computes, by its number in that body.
#[derive(Clone, Copy, Debug, PartialEq, Eq, Structural)]
pub struct Value(pub u32);

/// Values of 32 bits take four bytes, values of 64 bits eight.
pub proof fn types_have_their_widths(ty: Type)
    ensures
        (ty is I32 || ty is F32) ==> ty.width() == 4,
        (ty is I64 || ty is F64) ==> ty.width() == 8,
{
}

/// An ordinary argument has the type that it was made with, and nothing else.
pub proof fn ordinary_arguments_have_their_type(value_type: Type)
    ensures
        ArgumentType::normal(value_type).value_type == value_type,
        ArgumentType::normal(value_type).purpose is Normal,
        ArgumentType::normal(value_type).extension is Unextended,
{
}

/// Signatures and named functions are seen as they are, field by field.
pub proof fn functions_are_seen_as_they_are(data: ExtFuncData)
    ensures
        data@.name == data.name@,
        data@.signature == data.signature@,
        data.signature@.call_conv == data.signature.call_conv,
        data.signature@.argument_bytes == data.signature.argument_bytes,
        data.signature@.argument_types == data.signature.argument_types@,
        data.signature@.return_types == data.signature.return_types@,
{
}

} // verus!
