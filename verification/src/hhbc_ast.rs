//! The instruction model: opcodes of the virtual machine, the
//! pseudo-instructions that exist only during emission, and their operands.
//!
//! Operands of variable size (label tables, iterator lists, strings) are
//! slices that live in the arena. In contracts an instruction is spoken of
//! through its view, in which those operands are sequences.

use crate::ast_defs;
use crate::iterator::IterId;
use crate::label::Label;
use crate::local::{Local, LocalId};
use crate::runtime::TypedValue;
use vstd::prelude::*;
use vstd::std_specs::convert::FromSpecImpl;
use vstd::string::StringSliceAdditionalSpecFns;

verus! {

/// A string in the arena, as bytes.
pub type Str<'arena> = &'arena [u8];

/// The name of an array literal in the static data section; by convention
/// `A_` followed by a number.
pub type AdataId<'arena> = Str<'arena>;

/// The depth of a cell of the evaluation stack.
pub type StackIndex = u32;

/// The number of a class in its unit.
pub type ClassNum = u32;

/// A count of arguments or of results.
pub type NumParams = u32;

/// The slot of a class reference.
pub type ClassrefId = isize;

/// One mark for each argument of a call.
pub type ByRefs<'arena> = &'arena [bool];

/// Positions of parameters.
pub type ParamLocations<'arena> = &'arena [isize];

/// The name of a class, as the assembler reads it.
pub type ClassId<'arena> = Str<'arena>;

/// The name of a function, as the assembler reads it.
pub type FunctionId<'arena> = Str<'arena>;

/// The name of a method.
pub type MethodId<'arena> = Str<'arena>;

/// The name of a constant.
pub type ConstId<'arena> = Str<'arena>;

/// The name of a property.
pub type PropId<'arena> = Str<'arena>;

/// The type that `IsTypeC` tests for.
#[derive(Clone, Copy, Debug, PartialEq, Eq, Structural)]
pub enum IsTypeOp {
    Null,
    Bool,
    Int,
    Dbl,
    Str,
    Obj,
    Res,
    Scalar,
    Keyset,
    Dict,
    Vec,
    ArrLike,
    ClsMeth,
    Func,
    LegacyArrLike,
    Class,
}

/// The kind of a `Fatal`.
#[derive(Clone, Copy, Debug, PartialEq, Eq, Structural)]
pub enum FatalOp {
    Runtime,
    Parse,
    RuntimeOmitFrame,
}

/// Whether a `Switch` checks its operand against the table's bounds.
#[derive(Clone, Copy, Debug, PartialEq, Eq, Structural)]
pub enum SwitchKind {
    Unbounded,
    Bounded,
}

/// The readonly check of a member operation.
#[derive(Clone, Copy, Debug, PartialEq, Eq, Structural)]
pub enum ReadonlyOp {
    Any,
    Readonly,
    Mutable,
    CheckROCOW,
    CheckMutROCOW,
}

/// The flag bits of a call.
#[derive(Clone, Copy, Debug, PartialEq, Eq, Structural)]
pub struct FCallArgsFlags {
    pub bits: u16,
}

/// A parameter of a function, by position or by name.
#[derive(Clone, Copy, Debug, PartialEq, Eq)]
pub enum ParamId<'arena> {
    ParamUnnamed(isize),
    ParamNamed(Str<'arena>),
}

/// The operands that describe the arguments of a call.
#[derive(Clone, Copy, Debug, PartialEq, Eq)]
pub struct FcallArgs<'arena> {
    pub flags: FCallArgsFlags,
    pub num_args: NumParams,
    pub num_rets: NumParams,
    pub inouts: ByRefs<'arena>,
    pub readonly: ByRefs<'arena>,
    pub async_eager_target: Option<Label>,
    pub context: Option<Str<'arena>>,
}

/// `std::slice::from_ref`: the slice of length one that holds `x`.
#[verifier::external_body]
pub(crate) fn slice_from_ref<T>(x: &T) -> (r: &[T])
    ensures
        r@ == seq![*x],
{
    std::slice::from_ref(x)
}

/// `std::slice::from_mut`: the slice of length one that holds `x`. What is
/// written to the slice is written to `x`.
#[verifier::external_body]
pub(crate) fn slice_from_mut<T>(x: &mut T) -> (r: &mut [T])
    ensures
        r@ == seq![*old(x)],
        final(r)@.len() == 1,
        *final(x) == final(r)@[0],
{
    std::slice::from_mut(x)
}

/// What holds labels that an instruction may branch to.
pub trait Targets {
    /// The branch targets, in contracts.
    spec fn spec_targets(&self) -> Seq<Label>;

    /// The labels that may be branched to, in the order of the operands.
    /// The label that a `Label` pseudo-instruction defines is none of them.
    fn targets(&self) -> (r: &[Label])
        ensures
            r@ == self.spec_targets(),
    ;

    /// The same labels, for a caller to redirect: what is written to the
    /// slice becomes the branch targets.
    fn targets_mut(&mut self) -> (r: &mut [Label])
        ensures
            r@ == old(self).spec_targets(),
            final(r)@.len() == r@.len(),
            final(self).spec_targets() == final(r)@,
    ;
}

impl<'arena> FcallArgs<'arena> {
    /// The operands of a call with `num_args` arguments and `num_rets`
    /// results. `inouts` and `readonly` are empty or say of each argument
    /// whether it is passed by reference, or readonly.
    pub fn new(
        flags: FCallArgsFlags,
        num_rets: NumParams,
        num_args: NumParams,
        inouts: &'arena [bool],
        readonly: &'arena [bool],
        async_eager_target: Option<Label>,
        context: Option<&'arena str>,
    ) -> (r: FcallArgs<'arena>)
        requires
            inouts@.len() == 0 || inouts@.len() == num_args,
            readonly@.len() == 0 || readonly@.len() == num_args,
        ensures
            r.flags == flags,
            r.num_args == num_args,
            r.num_rets == num_rets,
            r.inouts == inouts,
            r.readonly == readonly,
            r.async_eager_target == async_eager_target,
            match context {
                Some(s) => r.context matches Some(c) && c@ == s.spec_bytes(),
                None => r.context is None,
            },
    {
        FcallArgs {
            flags,
            num_args,
            num_rets,
            inouts,
            readonly,
            async_eager_target,
            context: match context {
                Some(s) => Some(s.as_bytes()),
                None => None,
            },
        }
    }

    /// The label at which an eagerly finished asynchronous call goes on, if
    /// the call has one.
    pub fn targets(&self) -> (r: &[Label])
        ensures
            r@ == self.spec_targets(),
    {
        match &self.async_eager_target {
            Some(x) => slice_from_ref(x),
            None => {
                let r: &[Label] = &[];
                assert(r@ =~= Seq::<Label>::empty());
                r
            },
        }
    }

    /// The label at which an eagerly finished asynchronous call goes on, if
    /// the call has one, for a caller to redirect.
    pub fn targets_mut(&mut self) -> (r: &mut [Label])
        ensures
            r@ == old(self).spec_targets(),
            final(r)@.len() == r@.len(),
            final(self).spec_targets() == final(r)@,
            final(self).async_eager_target == (match old(self).async_eager_target {
                Some(_) => Some(final(r)@[0]),
                None => None,
            }),
            final(self).flags == old(self).flags,
            final(self).num_args == old(self).num_args,
            final(self).num_rets == old(self).num_rets,
            final(self).inouts == old(self).inouts,
            final(self).readonly == old(self).readonly,
            final(self).context == old(self).context,
    {
        match &mut self.async_eager_target {
            Some(x) => slice_from_mut(x),
            None => &mut [],
        }
    }
}

impl<'arena> Targets for FcallArgs<'arena> {
    open spec fn spec_targets(&self) -> Seq<Label> {
        match self.async_eager_target {
            Some(l) => seq![l],
            None => Seq::empty(),
        }
    }

    fn targets(&self) -> (r: &[Label]) {
        FcallArgs::targets(self)
    }

    fn targets_mut(&mut self) -> (r: &mut [Label]) {
        FcallArgs::targets_mut(self)
    }
}

/// The operands of the instructions that start and advance a loop iterator.
#[derive(Clone, Copy, Debug, PartialEq, Eq)]
pub struct IterArgs<'arena> {
    pub iter_id: IterId,
    pub key_id: Option<Local<'arena>>,
    pub val_id: Local<'arena>,
}

/// The key of a member operation: an element (`E`) or a property (`P`,
/// `Q` for the null-safe form) that is given by a stack cell (`C`), a local
/// (`L`), a string or property name (`T`) or an integer (`I`); `W` appends a
/// new element.
#[derive(Clone, Copy, Debug, PartialEq, Eq)]
pub enum MemberKey<'arena> {
    EC(StackIndex, ReadonlyOp),
    EL(Local<'arena>, ReadonlyOp),
    ET(Str<'arena>, ReadonlyOp),
    EI(i64, ReadonlyOp),
    PC(StackIndex, ReadonlyOp),
    PL(Local<'arena>, ReadonlyOp),
    PT(PropId<'arena>, ReadonlyOp),
    QT(PropId<'arena>, ReadonlyOp),
    W,
}

/// Whether a class or function has reified generics.
#[derive(Clone, Copy, Debug, PartialEq, Eq, Structural)]
pub enum HasGenericsOp {
    NoGenerics,
    MaybeGenerics,
    HasGenerics,
}

/// The kind of a class-like declaration, as the assembler knows it.
#[derive(Clone, Copy, Debug, PartialEq, Eq, Structural)]
pub enum ClassishKind {
    Class,
    Interface,
    Trait,
    Enum,
    EnumClass,
}

/// The visibility of a member, as the assembler knows it.
#[derive(Clone, Copy, Debug, PartialEq, Eq, Structural)]
pub enum Visibility {
    Private,
    Public,
    Protected,
    Internal,
}

impl From<ast_defs::ClassishKind> for ClassishKind {
    fn from(k: ast_defs::ClassishKind) -> (r: ClassishKind) {
        match k {
            ast_defs::ClassishKind::Cclass(_) => ClassishKind::Class,
            ast_defs::ClassishKind::Cinterface => ClassishKind::Interface,
            ast_defs::ClassishKind::Ctrait => ClassishKind::Trait,
            ast_defs::ClassishKind::Cenum => ClassishKind::Enum,
            ast_defs::ClassishKind::CenumClass(_) => ClassishKind::EnumClass,
        }
    }
}

impl FromSpecImpl<ast_defs::ClassishKind> for ClassishKind {
    open spec fn obeys_from_spec() -> bool {
        true
    }

    open spec fn from_spec(k: ast_defs::ClassishKind) -> ClassishKind {
        match k {
            ast_defs::ClassishKind::Cclass(_) => ClassishKind::Class,
            ast_defs::ClassishKind::Cinterface => ClassishKind::Interface,
            ast_defs::ClassishKind::Ctrait => ClassishKind::Trait,
            ast_defs::ClassishKind::Cenum => ClassishKind::Enum,
            ast_defs::ClassishKind::CenumClass(_) => ClassishKind::EnumClass,
        }
    }
}

impl From<ast_defs::Visibility> for Visibility {
    fn from(k: ast_defs::Visibility) -> (r: Visibility) {
        match k {
            ast_defs::Visibility::Private => Visibility::Private,
            ast_defs::Visibility::Public => Visibility::Public,
            ast_defs::Visibility::Protected => Visibility::Protected,
            ast_defs::Visibility::Internal => Visibility::Internal,
        }
    }
}

impl FromSpecImpl<ast_defs::Visibility> for Visibility {
    open spec fn obeys_from_spec() -> bool {
        true
    }

    open spec fn from_spec(k: ast_defs::Visibility) -> Visibility {
        match k {
            ast_defs::Visibility::Private => Visibility::Private,
            ast_defs::Visibility::Public => Visibility::Public,
            ast_defs::Visibility::Protected => Visibility::Protected,
            ast_defs::Visibility::Internal => Visibility::Internal,
        }
    }
}

impl Visibility {
    /// The keyword of the visibility, in contracts.
    pub open spec fn keyword(self) -> Seq<char> {
        match self {
            Visibility::Private => "private"@,
            Visibility::Public => "public"@,
            Visibility::Protected => "protected"@,
            Visibility::Internal => "internal"@,
        }
    }
}

impl AsRef<str> for Visibility {
    /// The keyword of the visibility.
    fn as_ref(&self) -> (r: &str)
        ensures
            r@ == self.keyword(),
    {
        match self {
            Visibility::Private => "private",
            Visibility::Public => "public",
            Visibility::Protected => "protected",
            Visibility::Internal => "internal",
        }
    }
}

impl Default for LocalRange {
    /// The empty range.
    fn default() -> (r: LocalRange)
        ensures
            r == (LocalRange { start: LocalId { idx: 0 }, len: 0 }),
    {
        LocalRange { start: LocalId { idx: 0 }, len: 0 }
    }
}

/// A contiguous range of unnamed locals. The empty range is `{0, 0}`.
#[derive(Clone, Copy, Debug, PartialEq, Eq, Structural)]
pub struct LocalRange {
    pub start: LocalId,
    pub len: u32,
}

/// A span of source text.
#[derive(Clone, Copy, Debug, PartialEq, Eq, Structural)]
pub struct SrcLoc {
    pub line_begin: isize,
    pub col_begin: isize,
    pub line_end: isize,
    pub col_end: isize,
}

/// Pseudo-instructions: they have no opcode and exist between emission and
/// assembly only. `Break` and `Continue` carry a level that counts enclosing
/// loops and switches from 1.
#[derive(Clone, Copy, Debug, PartialEq, Eq)]
pub enum Pseudo<'arena> {
    Break(isize),
    Comment(Str<'arena>),
    Continue(isize),
    Label(Label),
    SrcLoc(SrcLoc),
    TryCatchBegin,
    TryCatchEnd,
    TryCatchMiddle,
    /// A constant that is still to be turned into the opcode of its
    /// literal, with a reference to the static data section where it is an
    /// array.
    TypedValue(&'arena TypedValue<'arena>),
}

/// The opcodes of the virtual machine that the emitter core produces or
/// inspects.
#[derive(Clone, Copy, Debug, PartialEq, Eq)]
pub enum Opcodes<'arena> {
    Nop,
    PopC,
    Dup,
    Null,
    True,
    False,
    Int(i64),
    Double(Str<'arena>),
    String(Str<'arena>),
    LazyClass(ClassId<'arena>),
    Array(AdataId<'arena>),
    Vec(AdataId<'arena>),
    Dict(AdataId<'arena>),
    Keyset(AdataId<'arena>),
    Jmp(Label),
    JmpZ(Label),
    JmpNZ(Label),
    Switch(SwitchKind, i64, &'arena [Label]),
    RetC,
    RetCSuspended,
    RetM(NumParams),
    CGetL(Local<'arena>),
    SetL(Local<'arena>),
    IsSetL(Local<'arena>),
    UnsetL(Local<'arena>),
    IsTypeC(IsTypeOp),
    VerifyRetTypeC,
    VerifyRetTypeTS,
    Fatal(FatalOp),
    IterInit(IterArgs<'arena>, Label),
    IterNext(IterArgs<'arena>, Label),
    IterFree(IterId),
    IterBreak(Label, &'arena [IterId]),
    FCallFuncD(FcallArgs<'arena>, FunctionId<'arena>),
    QueryM(StackIndex, MemberKey<'arena>),
}

/// What an opcode is in contracts: its variable-size operands are sequences.
pub enum SpecOpcodes<'arena> {
    Nop,
    PopC,
    Dup,
    Null,
    True,
    False,
    Int(i64),
    Double(Seq<u8>),
    String(Seq<u8>),
    LazyClass(Seq<u8>),
    Array(Seq<u8>),
    Vec(Seq<u8>),
    Dict(Seq<u8>),
    Keyset(Seq<u8>),
    Jmp(Label),
    JmpZ(Label),
    JmpNZ(Label),
    Switch(SwitchKind, i64, Seq<Label>),
    RetC,
    RetCSuspended,
    RetM(NumParams),
    CGetL(Local<'arena>),
    SetL(Local<'arena>),
    IsSetL(Local<'arena>),
    UnsetL(Local<'arena>),
    IsTypeC(IsTypeOp),
    VerifyRetTypeC,
    VerifyRetTypeTS,
    Fatal(FatalOp),
    IterInit(IterArgs<'arena>, Label),
    IterNext(IterArgs<'arena>, Label),
    IterFree(IterId),
    IterBreak(Label, Seq<IterId>),
    FCallFuncD(FcallArgs<'arena>, Seq<u8>),
    QueryM(StackIndex, MemberKey<'arena>),
}

impl<'arena> View for Opcodes<'arena> {
    type V = SpecOpcodes<'arena>;

    open spec fn view(&self) -> SpecOpcodes<'arena> {
        match *self {
            Opcodes::Nop => SpecOpcodes::Nop,
            Opcodes::PopC => SpecOpcodes::PopC,
            Opcodes::Dup => SpecOpcodes::Dup,
            Opcodes::Null => SpecOpcodes::Null,
            Opcodes::True => SpecOpcodes::True,
            Opcodes::False => SpecOpcodes::False,
            Opcodes::Int(i) => SpecOpcodes::Int(i),
            Opcodes::Double(s) => SpecOpcodes::Double(s@),
            Opcodes::String(s) => SpecOpcodes::String(s@),
            Opcodes::LazyClass(s) => SpecOpcodes::LazyClass(s@),
            Opcodes::Array(s) => SpecOpcodes::Array(s@),
            Opcodes::Vec(s) => SpecOpcodes::Vec(s@),
            Opcodes::Dict(s) => SpecOpcodes::Dict(s@),
            Opcodes::Keyset(s) => SpecOpcodes::Keyset(s@),
            Opcodes::Jmp(l) => SpecOpcodes::Jmp(l),
            Opcodes::JmpZ(l) => SpecOpcodes::JmpZ(l),
            Opcodes::JmpNZ(l) => SpecOpcodes::JmpNZ(l),
            Opcodes::Switch(kind, base, targets) => SpecOpcodes::Switch(kind, base, targets@),
            Opcodes::RetC => SpecOpcodes::RetC,
            Opcodes::RetCSuspended => SpecOpcodes::RetCSuspended,
            Opcodes::RetM(n) => SpecOpcodes::RetM(n),
            Opcodes::CGetL(l) => SpecOpcodes::CGetL(l),
            Opcodes::SetL(l) => SpecOpcodes::SetL(l),
            Opcodes::IsSetL(l) => SpecOpcodes::IsSetL(l),
            Opcodes::UnsetL(l) => SpecOpcodes::UnsetL(l),
            Opcodes::IsTypeC(op) => SpecOpcodes::IsTypeC(op),
            Opcodes::VerifyRetTypeC => SpecOpcodes::VerifyRetTypeC,
            Opcodes::VerifyRetTypeTS => SpecOpcodes::VerifyRetTypeTS,
            Opcodes::Fatal(op) => SpecOpcodes::Fatal(op),
            Opcodes::IterInit(args, l) => SpecOpcodes::IterInit(args, l),
            Opcodes::IterNext(args, l) => SpecOpcodes::IterNext(args, l),
            Opcodes::IterFree(id) => SpecOpcodes::IterFree(id),
            Opcodes::IterBreak(l, iters) => SpecOpcodes::IterBreak(l, iters@),
            Opcodes::FCallFuncD(fca, f) => SpecOpcodes::FCallFuncD(fca, f@),
            Opcodes::QueryM(n, key) => SpecOpcodes::QueryM(n, key),
        }
    }
}

/// One instruction of an instruction sequence.
#[derive(Clone, Copy, Debug, PartialEq, Eq)]
pub enum Instruct<'arena> {
    /// An opcode of the virtual machine.
    Opcode(Opcodes<'arena>),
    /// A pseudo-instruction.
    Pseudo(Pseudo<'arena>),
}

/// What an instruction is in contracts.
pub enum SpecInstruct<'arena> {
    Opcode(SpecOpcodes<'arena>),
    Pseudo(Pseudo<'arena>),
}

impl<'arena> View for Instruct<'arena> {
    type V = SpecInstruct<'arena>;

    open spec fn view(&self) -> SpecInstruct<'arena> {
        match *self {
            Instruct::Opcode(o) => SpecInstruct::Opcode(o@),
            Instruct::Pseudo(p) => SpecInstruct::Pseudo(p),
        }
    }
}

impl<'arena> SpecInstruct<'arena> {
    /// A return of the function: `RetC`, `RetCSuspended` or `RetM`.
    pub open spec fn is_return(self) -> bool {
        self matches SpecInstruct::Opcode(o) && (o is RetC || o is RetCSuspended || o is RetM)
    }

    /// A `Break` or `Continue` pseudo-instruction.
    pub open spec fn is_break_or_continue(self) -> bool {
        self matches SpecInstruct::Pseudo(p) && (p is Break || p is Continue)
    }

    /// An instruction that leaves a protected region other than by falling
    /// through: a return, a `Break` or a `Continue`.
    pub open spec fn is_exit(self) -> bool {
        self.is_return() || self.is_break_or_continue()
    }
}

impl<'arena> SpecOpcodes<'arena> {
    /// The labels that the opcode may branch to, in the order of its
    /// operands.
    pub open spec fn targets(self) -> Seq<Label> {
        match self {
            SpecOpcodes::Jmp(l) => seq![l],
            SpecOpcodes::JmpZ(l) => seq![l],
            SpecOpcodes::JmpNZ(l) => seq![l],
            SpecOpcodes::Switch(_, _, targets) => targets,
            SpecOpcodes::IterInit(_, l) => seq![l],
            SpecOpcodes::IterNext(_, l) => seq![l],
            SpecOpcodes::IterBreak(l, _) => seq![l],
            SpecOpcodes::FCallFuncD(fca, _) => fca.spec_targets(),
            _ => Seq::empty(),
        }
    }
}

impl<'arena> Opcodes<'arena> {
    /// The labels that the opcode may branch to, in the order of its
    /// operands.
    pub fn targets(&self) -> (r: &[Label])
        ensures
            r@ == self@.targets(),
    {
        match self {
            Opcodes::Jmp(l) => slice_from_ref(l),
            Opcodes::JmpZ(l) => slice_from_ref(l),
            Opcodes::JmpNZ(l) => slice_from_ref(l),
            Opcodes::Switch(_, _, targets) => targets,
            Opcodes::IterInit(_, l) => slice_from_ref(l),
            Opcodes::IterNext(_, l) => slice_from_ref(l),
            Opcodes::IterBreak(l, _) => slice_from_ref(l),
            Opcodes::FCallFuncD(fca, _) => fca.targets(),
            _ => {
                let r: &[Label] = &[];
                assert(r@ =~= Seq::<Label>::empty());
                r
            },
        }
    }
}

impl<'arena> SpecInstruct<'arena> {
    /// The labels that the instruction may branch to. Pseudo-instructions
    /// branch nowhere; the label that a `Label` defines is no target.
    pub open spec fn targets(self) -> Seq<Label> {
        match self {
            SpecInstruct::Opcode(o) => o.targets(),
            SpecInstruct::Pseudo(_) => Seq::empty(),
        }
    }
}

impl<'arena> Instruct<'arena> {
    /// The labels that the instruction may branch to, in the order of its
    /// operands. The label that a `Label` pseudo-instruction defines is
    /// none of them.
    pub fn targets(&self) -> (r: &[Label])
        ensures
            r@ == self@.targets(),
    {
        match self {
            Instruct::Opcode(opcode) => opcode.targets(),
            Instruct::Pseudo(_) => {
                let r: &[Label] = &[];
                assert(r@ =~= Seq::<Label>::empty());
                r
            },
        }
    }

    /// Tells whether the instruction is a return, a `Break` or a `Continue`.
    pub fn is_exit(&self) -> (b: bool)
        ensures
            b == self@.is_exit(),
    {
        match self {
            Instruct::Opcode(Opcodes::RetC) => true,
            Instruct::Opcode(Opcodes::RetCSuspended) => true,
            Instruct::Opcode(Opcodes::RetM(_)) => true,
            Instruct::Pseudo(Pseudo::Break(_)) => true,
            Instruct::Pseudo(Pseudo::Continue(_)) => true,
            _ => false,
        }
    }
}

} // verus!
