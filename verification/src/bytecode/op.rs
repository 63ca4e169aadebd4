//! The op set and the wire shape of its operands.

use vstd::prelude::*;

verus! {

#[derive(Clone, Copy, Debug, PartialEq, Eq, Structural)]
pub enum UpdKind {
    PreInc,
    PreDec,
    PostInc,
    PostDec,
    IncDiscard,
    DecDiscard,
}

#[derive(Clone, Copy, Debug, PartialEq, Eq, Structural)]
pub enum TypeofKind {
    Undefined,
    Object,
    Boolean,
    Number,
    BigInt,
    String,
    Symbol,
    Function,
}

#[derive(Clone, Copy, Debug, PartialEq, Eq, Structural)]
pub enum ArithKind {
    Add,
    Sub,
    Mul,
    Div,
    Mod,
    BitAnd,
    BitOr,
    BitXor,
    Shl,
    Shr,
    UShr,
}

#[derive(Clone, Copy, Debug, PartialEq, Eq, Structural)]
pub enum CmpKind {
    Lt,
    Gt,
    Le,
    Ge,
    EqEq,
    NotEq,
    StrictEq,
    StrictNotEq,
}

/// One bytecode op. Jump operands are absolute op indices.
#[derive(Clone, Copy, Debug, PartialEq, Eq, Structural)]
pub enum Op {
    Const(u32),
    Undef,
    Dup,
    Pop,
    LoadLocal(u16),
    StoreLocal(u16),
    LoadCap(u32),
    StoreCap(u32),
    StoreCapInit(u32),
    UpdateCap(u32, UpdKind),
    UpdateName(u32, UpdKind),
    UpdateNameCached(u32, u32, UpdKind),
    MakeClosure(u32, u32),
    UpdateLocal(u16, UpdKind),
    Tdz(u16),
    LoadName(u32, u32),
    StoreName(u32),
    StoreNameCached(u32, u32),
    LoadThis,
    LoadLexicalThis,
    GetProp(u32, u32),
    GetPropThis(u32, u32),
    GetPropLocal(u16, u32, u32),
    SetProp(u32, u32),
    SetPropDrop(u32, u32),
    SetPropThisDrop(u32, u32),
    SetPropLocalDrop(u16, u32, u32),
    ToStr,
    GetIter,
    ForInKeys,
    ForInStepL(u16, u16, u16),
    IterStepL(u16, u16),
    IterCloseL(u16),
    IterAbortL(u16),
    DestructureGuard,
    DestructureArr(u16),
    DeleteProp(u32, bool),
    DeleteElem(bool),
    CallSpread(u16),
    CallSpreadThis(u16),
    AppendProp(u32, u32),
    GetElem,
    SetElem,
    SetElemDrop,
    GetElemLocal(u16),
    SetElemLocal(u16),
    SetElemLocalDrop(u16),
    UpdateProp(u32, u32, UpdKind),
    UpdateElem(UpdKind),
    ToPropKey,
    ToPropKeyLocal(u16),
    Dup2,
    GetMethod(u32, u32),
    GetMethodElem,
    Add,
    Sub,
    Mul,
    Div,
    Mod,
    BitAnd,
    BitOr,
    BitXor,
    Shl,
    Shr,
    UShr,
    Lt,
    Gt,
    Le,
    Ge,
    EqEq,
    NotEq,
    StrictEq,
    StrictNotEq,
    InstanceOf(u32),
    GenBin(u32),
    Neg,
    Plus,
    Not,
    BitNot,
    Typeof,
    TypeofIs(TypeofKind, bool),
    TypeofName(u32),
    Void,
    Jump(u32),
    JumpIfFalse(u32),
    JumpIfNotCmp(CmpKind, u32),
    JumpIfNotCmpLL(CmpKind, u16, u16, u32),
    JumpIfNotCmpLK(CmpKind, u16, u32, u32),
    ArithLL(ArithKind, u16, u16, u16),
    ArithLK(ArithKind, u16, u16, u32),
    JumpIfFalsePeek(u32),
    JumpIfTruePeek(u32),
    JumpIfNotNullishPeek(u32),
    Call(u16),
    LoadNameForCall(u32, u32),
    CallWithThis(u16),
    New(u16),
    MakeRegExp(u32, u32),
    MakeArray(u16),
    MakeObject(u32, u16, u32),
    Throw,
    Return,
    ReturnUndef,
    Await,
    PushHandler(u32),
    PopHandler,
    GetPrivate(u32),
    SetPrivate(u32),
    GetPrivateMethod(u32),
    PrivateIn(u32),
    UpdatePrivate(u32, UpdKind),
    NewObject,
    InitProp(u32, bool),
    InitPropComputed(bool),
    InitMethod(u32, u32, u16),
    CopyDataProps,
    SetProtoLit,
    MakeClass(u32, u32),
    Nip,
    SuperGet(u32),
    SuperGetElem,
    SuperBase,
    SuperMethod(u32, bool),
    SuperMethodElem(bool),
    ObjRest(u32, u16),
    NewArrayLit,
    ArrayAppend,
    ArrayAppendSpread,
    ArrayHole,
    SwitchLK(u16, u32),
    SuperCtor,
    SuperCall(u16),
    SuperCallSpread(u16),
    DerivedReturn,
    InitialYield,
    Yield,
    YieldDelegate(u16),
    LoadCallee,
    DefineField(u32, bool),
    BlkNew(u16, u16),
    BlkDecl(u16, u32, bool),
    BlkCopy(u16),
    BlkLoad(u16, u32),
    BlkStore(u16, u32),
    BlkInit(u16, u32),
    BlkUpdate(u16, u32, UpdKind),
    InEnv(u16),
    TailCall(u16, bool),
    ImportCall(u8, bool),
    GetAsyncIter,
    AsyncIterNext(u16, u16, u16),
    AsyncIterResult(u16),
    AsyncCloseCall(u16, u16),
    AsyncCloseCheck(u16),
    AsyncDelegateInit,
    AsyncDelegateCall(u16, u16, u16),
    AsyncDelegateResult(u16, u16),
    AsyncDelegateCloseReject(u16, u16),
    AsyncDelegateSpecial(u16, bool),
    NewSpread(u16),
    IterRestL(u16, u16),
    TailCallSpread(u16, bool),
    ArrayCbGuard(u8),
    ArrayCbHas,
    ArrayCbDone(u32),
    ArgsLen(u16, u16),
    ArgsGet(u16, u16),
    LoadNewTarget,
    Concat(u16),
}

/// The number of ops: tags run from 0 to `OP_COUNT - 1` in declaration order.
pub const OP_COUNT: u8 = 169;

/// One operand.
#[derive(Clone, Copy, Debug, PartialEq, Eq, Structural)]
pub enum Operand {
    U32(u32),
    U16(u16),
    U8(u8),
    Bool(bool),
    Upd(UpdKind),
    Typeof(TypeofKind),
    Arith(ArithKind),
    Cmp(CmpKind),
}

/// The type of an operand.
#[derive(Clone, Copy, Debug, PartialEq, Eq, Structural)]
pub enum OperandTy {
    U32,
    U16,
    U8,
    Bool,
    Upd,
    Typeof,
    Arith,
    Cmp,
}

/// An op's operands.
#[derive(Clone, Copy, Debug, PartialEq, Eq, Structural)]
pub enum Operands {
    Zero,
    One(Operand),
    Two(Operand, Operand),
    Three(Operand, Operand, Operand),
    Four(Operand, Operand, Operand, Operand),
}

/// The types of an op's operands.
#[derive(Clone, Copy, Debug, PartialEq, Eq, Structural)]
pub enum OperandTys {
    Zero,
    One(OperandTy),
    Two(OperandTy, OperandTy),
    Three(OperandTy, OperandTy, OperandTy),
    Four(OperandTy, OperandTy, OperandTy, OperandTy),
}

pub open spec fn ty_of(o: Operand) -> OperandTy {
    match o {
        Operand::U32(_) => OperandTy::U32,
        Operand::U16(_) => OperandTy::U16,
        Operand::U8(_) => OperandTy::U8,
        Operand::Bool(_) => OperandTy::Bool,
        Operand::Upd(_) => OperandTy::Upd,
        Operand::Typeof(_) => OperandTy::Typeof,
        Operand::Arith(_) => OperandTy::Arith,
        Operand::Cmp(_) => OperandTy::Cmp,
    }
}

pub open spec fn tys_of(o: Operands) -> OperandTys {
    match o {
        Operands::Zero => OperandTys::Zero,
        Operands::One(a) => OperandTys::One(ty_of(a)),
        Operands::Two(a, b) => OperandTys::Two(ty_of(a), ty_of(b)),
        Operands::Three(a, b, c) => OperandTys::Three(ty_of(a), ty_of(b), ty_of(c)),
        Operands::Four(a, b, c, d) => OperandTys::Four(ty_of(a), ty_of(b), ty_of(c), ty_of(d)),
    }
}

/// An op as its tag and operands.
pub open spec fn op_parts(op: Op) -> (u8, Operands) {
    match op {
        Op::Const(a) => (0, Operands::One(Operand::U32(a))),
        Op::Undef => (1, Operands::Zero),
        Op::Dup => (2, Operands::Zero),
        Op::Pop => (3, Operands::Zero),
        Op::LoadLocal(a) => (4, Operands::One(Operand::U16(a))),
        Op::StoreLocal(a) => (5, Operands::One(Operand::U16(a))),
        Op::LoadCap(a) => (6, Operands::One(Operand::U32(a))),
        Op::StoreCap(a) => (7, Operands::One(Operand::U32(a))),
        Op::StoreCapInit(a) => (8, Operands::One(Operand::U32(a))),
        Op::UpdateCap(a, b) => (9, Operands::Two(Operand::U32(a), Operand::Upd(b))),
        Op::UpdateName(a, b) => (10, Operands::Two(Operand::U32(a), Operand::Upd(b))),
        Op::UpdateNameCached(a, b, c) => (11, Operands::Three(Operand::U32(a), Operand::U32(b), Operand::Upd(c))),
        Op::MakeClosure(a, b) => (12, Operands::Two(Operand::U32(a), Operand::U32(b))),
        Op::UpdateLocal(a, b) => (13, Operands::Two(Operand::U16(a), Operand::Upd(b))),
        Op::Tdz(a) => (14, Operands::One(Operand::U16(a))),
        Op::LoadName(a, b) => (15, Operands::Two(Operand::U32(a), Operand::U32(b))),
        Op::StoreName(a) => (16, Operands::One(Operand::U32(a))),
        Op::StoreNameCached(a, b) => (17, Operands::Two(Operand::U32(a), Operand::U32(b))),
        Op::LoadThis => (18, Operands::Zero),
        Op::LoadLexicalThis => (19, Operands::Zero),
        Op::GetProp(a, b) => (20, Operands::Two(Operand::U32(a), Operand::U32(b))),
        Op::GetPropThis(a, b) => (21, Operands::Two(Operand::U32(a), Operand::U32(b))),
        Op::GetPropLocal(a, b, c) => (22, Operands::Three(Operand::U16(a), Operand::U32(b), Operand::U32(c))),
        Op::SetProp(a, b) => (23, Operands::Two(Operand::U32(a), Operand::U32(b))),
        Op::SetPropDrop(a, b) => (24, Operands::Two(Operand::U32(a), Operand::U32(b))),
        Op::SetPropThisDrop(a, b) => (25, Operands::Two(Operand::U32(a), Operand::U32(b))),
        Op::SetPropLocalDrop(a, b, c) => (26, Operands::Three(Operand::U16(a), Operand::U32(b), Operand::U32(c))),
        Op::ToStr => (27, Operands::Zero),
        Op::GetIter => (28, Operands::Zero),
        Op::ForInKeys => (29, Operands::Zero),
        Op::ForInStepL(a, b, c) => (30, Operands::Three(Operand::U16(a), Operand::U16(b), Operand::U16(c))),
        Op::IterStepL(a, b) => (31, Operands::Two(Operand::U16(a), Operand::U16(b))),
        Op::IterCloseL(a) => (32, Operands::One(Operand::U16(a))),
        Op::IterAbortL(a) => (33, Operands::One(Operand::U16(a))),
        Op::DestructureGuard => (34, Operands::Zero),
        Op::DestructureArr(a) => (35, Operands::One(Operand::U16(a))),
        Op::DeleteProp(a, b) => (36, Operands::Two(Operand::U32(a), Operand::Bool(b))),
        Op::DeleteElem(a) => (37, Operands::One(Operand::Bool(a))),
        Op::CallSpread(a) => (38, Operands::One(Operand::U16(a))),
        Op::CallSpreadThis(a) => (39, Operands::One(Operand::U16(a))),
        Op::AppendProp(a, b) => (40, Operands::Two(Operand::U32(a), Operand::U32(b))),
        Op::GetElem => (41, Operands::Zero),
        Op::SetElem => (42, Operands::Zero),
        Op::SetElemDrop => (43, Operands::Zero),
        Op::GetElemLocal(a) => (44, Operands::One(Operand::U16(a))),
        Op::SetElemLocal(a) => (45, Operands::One(Operand::U16(a))),
        Op::SetElemLocalDrop(a) => (46, Operands::One(Operand::U16(a))),
        Op::UpdateProp(a, b, c) => (47, Operands::Three(Operand::U32(a), Operand::U32(b), Operand::Upd(c))),
        Op::UpdateElem(a) => (48, Operands::One(Operand::Upd(a))),
        Op::ToPropKey => (49, Operands::Zero),
        Op::ToPropKeyLocal(a) => (50, Operands::One(Operand::U16(a))),
        Op::Dup2 => (51, Operands::Zero),
        Op::GetMethod(a, b) => (52, Operands::Two(Operand::U32(a), Operand::U32(b))),
        Op::GetMethodElem => (53, Operands::Zero),
        Op::Add => (54, Operands::Zero),
        Op::Sub => (55, Operands::Zero),
        Op::Mul => (56, Operands::Zero),
        Op::Div => (57, Operands::Zero),
        Op::Mod => (58, Operands::Zero),
        Op::BitAnd => (59, Operands::Zero),
        Op::BitOr => (60, Operands::Zero),
        Op::BitXor => (61, Operands::Zero),
        Op::Shl => (62, Operands::Zero),
        Op::Shr => (63, Operands::Zero),
        Op::UShr => (64, Operands::Zero),
        Op::Lt => (65, Operands::Zero),
        Op::Gt => (66, Operands::Zero),
        Op::Le => (67, Operands::Zero),
        Op::Ge => (68, Operands::Zero),
        Op::EqEq => (69, Operands::Zero),
        Op::NotEq => (70, Operands::Zero),
        Op::StrictEq => (71, Operands::Zero),
        Op::StrictNotEq => (72, Operands::Zero),
        Op::InstanceOf(a) => (73, Operands::One(Operand::U32(a))),
        Op::GenBin(a) => (74, Operands::One(Operand::U32(a))),
        Op::Neg => (75, Operands::Zero),
        Op::Plus => (76, Operands::Zero),
        Op::Not => (77, Operands::Zero),
        Op::BitNot => (78, Operands::Zero),
        Op::Typeof => (79, Operands::Zero),
        Op::TypeofIs(a, b) => (80, Operands::Two(Operand::Typeof(a), Operand::Bool(b))),
        Op::TypeofName(a) => (81, Operands::One(Operand::U32(a))),
        Op::Void => (82, Operands::Zero),
        Op::Jump(a) => (83, Operands::One(Operand::U32(a))),
        Op::JumpIfFalse(a) => (84, Operands::One(Operand::U32(a))),
        Op::JumpIfNotCmp(a, b) => (85, Operands::Two(Operand::Cmp(a), Operand::U32(b))),
        Op::JumpIfNotCmpLL(a, b, c, d) => (86, Operands::Four(Operand::Cmp(a), Operand::U16(b), Operand::U16(c), Operand::U32(d))),
        Op::JumpIfNotCmpLK(a, b, c, d) => (87, Operands::Four(Operand::Cmp(a), Operand::U16(b), Operand::U32(c), Operand::U32(d))),
        Op::ArithLL(a, b, c, d) => (88, Operands::Four(Operand::Arith(a), Operand::U16(b), Operand::U16(c), Operand::U16(d))),
        Op::ArithLK(a, b, c, d) => (89, Operands::Four(Operand::Arith(a), Operand::U16(b), Operand::U16(c), Operand::U32(d))),
        Op::JumpIfFalsePeek(a) => (90, Operands::One(Operand::U32(a))),
        Op::JumpIfTruePeek(a) => (91, Operands::One(Operand::U32(a))),
        Op::JumpIfNotNullishPeek(a) => (92, Operands::One(Operand::U32(a))),
        Op::Call(a) => (93, Operands::One(Operand::U16(a))),
        Op::LoadNameForCall(a, b) => (94, Operands::Two(Operand::U32(a), Operand::U32(b))),
        Op::CallWithThis(a) => (95, Operands::One(Operand::U16(a))),
        Op::New(a) => (96, Operands::One(Operand::U16(a))),
        Op::MakeRegExp(a, b) => (97, Operands::Two(Operand::U32(a), Operand::U32(b))),
        Op::MakeArray(a) => (98, Operands::One(Operand::U16(a))),
        Op::MakeObject(a, b, c) => (99, Operands::Three(Operand::U32(a), Operand::U16(b), Operand::U32(c))),
        Op::Throw => (100, Operands::Zero),
        Op::Return => (101, Operands::Zero),
        Op::ReturnUndef => (102, Operands::Zero),
        Op::Await => (103, Operands::Zero),
        Op::PushHandler(a) => (104, Operands::One(Operand::U32(a))),
        Op::PopHandler => (105, Operands::Zero),
        Op::GetPrivate(a) => (106, Operands::One(Operand::U32(a))),
        Op::SetPrivate(a) => (107, Operands::One(Operand::U32(a))),
        Op::GetPrivateMethod(a) => (108, Operands::One(Operand::U32(a))),
        Op::PrivateIn(a) => (109, Operands::One(Operand::U32(a))),
        Op::UpdatePrivate(a, b) => (110, Operands::Two(Operand::U32(a), Operand::Upd(b))),
        Op::NewObject => (111, Operands::Zero),
        Op::InitProp(a, b) => (112, Operands::Two(Operand::U32(a), Operand::Bool(b))),
        Op::InitPropComputed(a) => (113, Operands::One(Operand::Bool(a))),
        Op::InitMethod(a, b, c) => (114, Operands::Three(Operand::U32(a), Operand::U32(b), Operand::U16(c))),
        Op::CopyDataProps => (115, Operands::Zero),
        Op::SetProtoLit => (116, Operands::Zero),
        Op::MakeClass(a, b) => (117, Operands::Two(Operand::U32(a), Operand::U32(b))),
        Op::Nip => (118, Operands::Zero),
        Op::SuperGet(a) => (119, Operands::One(Operand::U32(a))),
        Op::SuperGetElem => (120, Operands::Zero),
        Op::SuperBase => (121, Operands::Zero),
        Op::SuperMethod(a, b) => (122, Operands::Two(Operand::U32(a), Operand::Bool(b))),
        Op::SuperMethodElem(a) => (123, Operands::One(Operand::Bool(a))),
        Op::ObjRest(a, b) => (124, Operands::Two(Operand::U32(a), Operand::U16(b))),
        Op::NewArrayLit => (125, Operands::Zero),
        Op::ArrayAppend => (126, Operands::Zero),
        Op::ArrayAppendSpread => (127, Operands::Zero),
        Op::ArrayHole => (128, Operands::Zero),
        Op::SwitchLK(a, b) => (129, Operands::Two(Operand::U16(a), Operand::U32(b))),
        Op::SuperCtor => (130, Operands::Zero),
        Op::SuperCall(a) => (131, Operands::One(Operand::U16(a))),
        Op::SuperCallSpread(a) => (132, Operands::One(Operand::U16(a))),
        Op::DerivedReturn => (133, Operands::Zero),
        Op::InitialYield => (134, Operands::Zero),
        Op::Yield => (135, Operands::Zero),
        Op::YieldDelegate(a) => (136, Operands::One(Operand::U16(a))),
        Op::LoadCallee => (137, Operands::Zero),
        Op::DefineField(a, b) => (138, Operands::Two(Operand::U32(a), Operand::Bool(b))),
        Op::BlkNew(a, b) => (139, Operands::Two(Operand::U16(a), Operand::U16(b))),
        Op::BlkDecl(a, b, c) => (140, Operands::Three(Operand::U16(a), Operand::U32(b), Operand::Bool(c))),
        Op::BlkCopy(a) => (141, Operands::One(Operand::U16(a))),
        Op::BlkLoad(a, b) => (142, Operands::Two(Operand::U16(a), Operand::U32(b))),
        Op::BlkStore(a, b) => (143, Operands::Two(Operand::U16(a), Operand::U32(b))),
        Op::BlkInit(a, b) => (144, Operands::Two(Operand::U16(a), Operand::U32(b))),
        Op::BlkUpdate(a, b, c) => (145, Operands::Three(Operand::U16(a), Operand::U32(b), Operand::Upd(c))),
        Op::InEnv(a) => (146, Operands::One(Operand::U16(a))),
        Op::TailCall(a, b) => (147, Operands::Two(Operand::U16(a), Operand::Bool(b))),
        Op::ImportCall(a, b) => (148, Operands::Two(Operand::U8(a), Operand::Bool(b))),
        Op::GetAsyncIter => (149, Operands::Zero),
        Op::AsyncIterNext(a, b, c) => (150, Operands::Three(Operand::U16(a), Operand::U16(b), Operand::U16(c))),
        Op::AsyncIterResult(a) => (151, Operands::One(Operand::U16(a))),
        Op::AsyncCloseCall(a, b) => (152, Operands::Two(Operand::U16(a), Operand::U16(b))),
        Op::AsyncCloseCheck(a) => (153, Operands::One(Operand::U16(a))),
        Op::AsyncDelegateInit => (154, Operands::Zero),
        Op::AsyncDelegateCall(a, b, c) => (155, Operands::Three(Operand::U16(a), Operand::U16(b), Operand::U16(c))),
        Op::AsyncDelegateResult(a, b) => (156, Operands::Two(Operand::U16(a), Operand::U16(b))),
        Op::AsyncDelegateCloseReject(a, b) => (157, Operands::Two(Operand::U16(a), Operand::U16(b))),
        Op::AsyncDelegateSpecial(a, b) => (158, Operands::Two(Operand::U16(a), Operand::Bool(b))),
        Op::NewSpread(a) => (159, Operands::One(Operand::U16(a))),
        Op::IterRestL(a, b) => (160, Operands::Two(Operand::U16(a), Operand::U16(b))),
        Op::TailCallSpread(a, b) => (161, Operands::Two(Operand::U16(a), Operand::Bool(b))),
        Op::ArrayCbGuard(a) => (162, Operands::One(Operand::U8(a))),
        Op::ArrayCbHas => (163, Operands::Zero),
        Op::ArrayCbDone(a) => (164, Operands::One(Operand::U32(a))),
        Op::ArgsLen(a, b) => (165, Operands::Two(Operand::U16(a), Operand::U16(b))),
        Op::ArgsGet(a, b) => (166, Operands::Two(Operand::U16(a), Operand::U16(b))),
        Op::LoadNewTarget => (167, Operands::Zero),
        Op::Concat(a) => (168, Operands::One(Operand::U16(a))),
    }
}

/// The operand types of the op with tag `tag`.
pub open spec fn tag_tys(tag: u8) -> OperandTys {
    match tag {
        0 | 6 | 7 | 8 | 16 | 73 | 74 | 81 | 83 | 84 | 90 | 91 | 92 | 104 | 106 | 107 | 108 | 109 | 119 | 164 => OperandTys::One(OperandTy::U32),
        4 | 5 | 14 | 32 | 33 | 35 | 38 | 39 | 44 | 45 | 46 | 50 | 93 | 95 | 96 | 98 | 131 | 132 | 136 | 141 | 146 | 151 | 153 | 159 | 168 => OperandTys::One(OperandTy::U16),
        9 | 10 | 110 => OperandTys::Two(OperandTy::U32, OperandTy::Upd),
        11 | 47 => OperandTys::Three(OperandTy::U32, OperandTy::U32, OperandTy::Upd),
        12 | 15 | 17 | 20 | 21 | 23 | 24 | 25 | 40 | 52 | 94 | 97 | 117 => OperandTys::Two(OperandTy::U32, OperandTy::U32),
        13 => OperandTys::Two(OperandTy::U16, OperandTy::Upd),
        22 | 26 => OperandTys::Three(OperandTy::U16, OperandTy::U32, OperandTy::U32),
        30 | 150 | 155 => OperandTys::Three(OperandTy::U16, OperandTy::U16, OperandTy::U16),
        31 | 139 | 152 | 156 | 157 | 160 | 165 | 166 => OperandTys::Two(OperandTy::U16, OperandTy::U16),
        36 | 112 | 122 | 138 => OperandTys::Two(OperandTy::U32, OperandTy::Bool),
        37 | 113 | 123 => OperandTys::One(OperandTy::Bool),
        48 => OperandTys::One(OperandTy::Upd),
        80 => OperandTys::Two(OperandTy::Typeof, OperandTy::Bool),
        85 => OperandTys::Two(OperandTy::Cmp, OperandTy::U32),
        86 => OperandTys::Four(OperandTy::Cmp, OperandTy::U16, OperandTy::U16, OperandTy::U32),
        87 => OperandTys::Four(OperandTy::Cmp, OperandTy::U16, OperandTy::U32, OperandTy::U32),
        88 => OperandTys::Four(OperandTy::Arith, OperandTy::U16, OperandTy::U16, OperandTy::U16),
        89 => OperandTys::Four(OperandTy::Arith, OperandTy::U16, OperandTy::U16, OperandTy::U32),
        99 => OperandTys::Three(OperandTy::U32, OperandTy::U16, OperandTy::U32),
        114 => OperandTys::Three(OperandTy::U32, OperandTy::U32, OperandTy::U16),
        124 => OperandTys::Two(OperandTy::U32, OperandTy::U16),
        129 | 142 | 143 | 144 => OperandTys::Two(OperandTy::U16, OperandTy::U32),
        140 => OperandTys::Three(OperandTy::U16, OperandTy::U32, OperandTy::Bool),
        145 => OperandTys::Three(OperandTy::U16, OperandTy::U32, OperandTy::Upd),
        147 | 158 | 161 => OperandTys::Two(OperandTy::U16, OperandTy::Bool),
        148 => OperandTys::Two(OperandTy::U8, OperandTy::Bool),
        162 => OperandTys::One(OperandTy::U8),
        _ => OperandTys::Zero,
    }
}

impl Op {
    /// The op's tag and operands.
    pub fn parts(self) -> (r: (u8, Operands))
        ensures
            r == op_parts(self),
    {
        match self {
            Op::Const(a) => (0, Operands::One(Operand::U32(a))),
            Op::Undef => (1, Operands::Zero),
            Op::Dup => (2, Operands::Zero),
            Op::Pop => (3, Operands::Zero),
            Op::LoadLocal(a) => (4, Operands::One(Operand::U16(a))),
            Op::StoreLocal(a) => (5, Operands::One(Operand::U16(a))),
            Op::LoadCap(a) => (6, Operands::One(Operand::U32(a))),
            Op::StoreCap(a) => (7, Operands::One(Operand::U32(a))),
            Op::StoreCapInit(a) => (8, Operands::One(Operand::U32(a))),
            Op::UpdateCap(a, b) => (9, Operands::Two(Operand::U32(a), Operand::Upd(b))),
            Op::UpdateName(a, b) => (10, Operands::Two(Operand::U32(a), Operand::Upd(b))),
            Op::UpdateNameCached(a, b, c) => (11, Operands::Three(Operand::U32(a), Operand::U32(b), Operand::Upd(c))),
            Op::MakeClosure(a, b) => (12, Operands::Two(Operand::U32(a), Operand::U32(b))),
            Op::UpdateLocal(a, b) => (13, Operands::Two(Operand::U16(a), Operand::Upd(b))),
            Op::Tdz(a) => (14, Operands::One(Operand::U16(a))),
            Op::LoadName(a, b) => (15, Operands::Two(Operand::U32(a), Operand::U32(b))),
            Op::StoreName(a) => (16, Operands::One(Operand::U32(a))),
            Op::StoreNameCached(a, b) => (17, Operands::Two(Operand::U32(a), Operand::U32(b))),
            Op::LoadThis => (18, Operands::Zero),
            Op::LoadLexicalThis => (19, Operands::Zero),
            Op::GetProp(a, b) => (20, Operands::Two(Operand::U32(a), Operand::U32(b))),
            Op::GetPropThis(a, b) => (21, Operands::Two(Operand::U32(a), Operand::U32(b))),
            Op::GetPropLocal(a, b, c) => (22, Operands::Three(Operand::U16(a), Operand::U32(b), Operand::U32(c))),
            Op::SetProp(a, b) => (23, Operands::Two(Operand::U32(a), Operand::U32(b))),
            Op::SetPropDrop(a, b) => (24, Operands::Two(Operand::U32(a), Operand::U32(b))),
            Op::SetPropThisDrop(a, b) => (25, Operands::Two(Operand::U32(a), Operand::U32(b))),
            Op::SetPropLocalDrop(a, b, c) => (26, Operands::Three(Operand::U16(a), Operand::U32(b), Operand::U32(c))),
            Op::ToStr => (27, Operands::Zero),
            Op::GetIter => (28, Operands::Zero),
            Op::ForInKeys => (29, Operands::Zero),
            Op::ForInStepL(a, b, c) => (30, Operands::Three(Operand::U16(a), Operand::U16(b), Operand::U16(c))),
            Op::IterStepL(a, b) => (31, Operands::Two(Operand::U16(a), Operand::U16(b))),
            Op::IterCloseL(a) => (32, Operands::One(Operand::U16(a))),
            Op::IterAbortL(a) => (33, Operands::One(Operand::U16(a))),
            Op::DestructureGuard => (34, Operands::Zero),
            Op::DestructureArr(a) => (35, Operands::One(Operand::U16(a))),
            Op::DeleteProp(a, b) => (36, Operands::Two(Operand::U32(a), Operand::Bool(b))),
            Op::DeleteElem(a) => (37, Operands::One(Operand::Bool(a))),
            Op::CallSpread(a) => (38, Operands::One(Operand::U16(a))),
            Op::CallSpreadThis(a) => (39, Operands::One(Operand::U16(a))),
            Op::AppendProp(a, b) => (40, Operands::Two(Operand::U32(a), Operand::U32(b))),
            Op::GetElem => (41, Operands::Zero),
            Op::SetElem => (42, Operands::Zero),
            Op::SetElemDrop => (43, Operands::Zero),
            Op::GetElemLocal(a) => (44, Operands::One(Operand::U16(a))),
            Op::SetElemLocal(a) => (45, Operands::One(Operand::U16(a))),
            Op::SetElemLocalDrop(a) => (46, Operands::One(Operand::U16(a))),
            Op::UpdateProp(a, b, c) => (47, Operands::Three(Operand::U32(a), Operand::U32(b), Operand::Upd(c))),
            Op::UpdateElem(a) => (48, Operands::One(Operand::Upd(a))),
            Op::ToPropKey => (49, Operands::Zero),
            Op::ToPropKeyLocal(a) => (50, Operands::One(Operand::U16(a))),
            Op::Dup2 => (51, Operands::Zero),
            Op::GetMethod(a, b) => (52, Operands::Two(Operand::U32(a), Operand::U32(b))),
            Op::GetMethodElem => (53, Operands::Zero),
            Op::Add => (54, Operands::Zero),
            Op::Sub => (55, Operands::Zero),
            Op::Mul => (56, Operands::Zero),
            Op::Div => (57, Operands::Zero),
            Op::Mod => (58, Operands::Zero),
            Op::BitAnd => (59, Operands::Zero),
            Op::BitOr => (60, Operands::Zero),
            Op::BitXor => (61, Operands::Zero),
            Op::Shl => (62, Operands::Zero),
            Op::Shr => (63, Operands::Zero),
            Op::UShr => (64, Operands::Zero),
            Op::Lt => (65, Operands::Zero),
            Op::Gt => (66, Operands::Zero),
            Op::Le => (67, Operands::Zero),
            Op::Ge => (68, Operands::Zero),
            Op::EqEq => (69, Operands::Zero),
            Op::NotEq => (70, Operands::Zero),
            Op::StrictEq => (71, Operands::Zero),
            Op::StrictNotEq => (72, Operands::Zero),
            Op::InstanceOf(a) => (73, Operands::One(Operand::U32(a))),
            Op::GenBin(a) => (74, Operands::One(Operand::U32(a))),
            Op::Neg => (75, Operands::Zero),
            Op::Plus => (76, Operands::Zero),
            Op::Not => (77, Operands::Zero),
            Op::BitNot => (78, Operands::Zero),
            Op::Typeof => (79, Operands::Zero),
            Op::TypeofIs(a, b) => (80, Operands::Two(Operand::Typeof(a), Operand::Bool(b))),
            Op::TypeofName(a) => (81, Operands::One(Operand::U32(a))),
            Op::Void => (82, Operands::Zero),
            Op::Jump(a) => (83, Operands::One(Operand::U32(a))),
            Op::JumpIfFalse(a) => (84, Operands::One(Operand::U32(a))),
            Op::JumpIfNotCmp(a, b) => (85, Operands::Two(Operand::Cmp(a), Operand::U32(b))),
            Op::JumpIfNotCmpLL(a, b, c, d) => (86, Operands::Four(Operand::Cmp(a), Operand::U16(b), Operand::U16(c), Operand::U32(d))),
            Op::JumpIfNotCmpLK(a, b, c, d) => (87, Operands::Four(Operand::Cmp(a), Operand::U16(b), Operand::U32(c), Operand::U32(d))),
            Op::ArithLL(a, b, c, d) => (88, Operands::Four(Operand::Arith(a), Operand::U16(b), Operand::U16(c), Operand::U16(d))),
            Op::ArithLK(a, b, c, d) => (89, Operands::Four(Operand::Arith(a), Operand::U16(b), Operand::U16(c), Operand::U32(d))),
            Op::JumpIfFalsePeek(a) => (90, Operands::One(Operand::U32(a))),
            Op::JumpIfTruePeek(a) => (91, Operands::One(Operand::U32(a))),
            Op::JumpIfNotNullishPeek(a) => (92, Operands::One(Operand::U32(a))),
            Op::Call(a) => (93, Operands::One(Operand::U16(a))),
            Op::LoadNameForCall(a, b) => (94, Operands::Two(Operand::U32(a), Operand::U32(b))),
            Op::CallWithThis(a) => (95, Operands::One(Operand::U16(a))),
            Op::New(a) => (96, Operands::One(Operand::U16(a))),
            Op::MakeRegExp(a, b) => (97, Operands::Two(Operand::U32(a), Operand::U32(b))),
            Op::MakeArray(a) => (98, Operands::One(Operand::U16(a))),
            Op::MakeObject(a, b, c) => (99, Operands::Three(Operand::U32(a), Operand::U16(b), Operand::U32(c))),
            Op::Throw => (100, Operands::Zero),
            Op::Return => (101, Operands::Zero),
            Op::ReturnUndef => (102, Operands::Zero),
            Op::Await => (103, Operands::Zero),
            Op::PushHandler(a) => (104, Operands::One(Operand::U32(a))),
            Op::PopHandler => (105, Operands::Zero),
            Op::GetPrivate(a) => (106, Operands::One(Operand::U32(a))),
            Op::SetPrivate(a) => (107, Operands::One(Operand::U32(a))),
            Op::GetPrivateMethod(a) => (108, Operands::One(Operand::U32(a))),
            Op::PrivateIn(a) => (109, Operands::One(Operand::U32(a))),
            Op::UpdatePrivate(a, b) => (110, Operands::Two(Operand::U32(a), Operand::Upd(b))),
            Op::NewObject => (111, Operands::Zero),
            Op::InitProp(a, b) => (112, Operands::Two(Operand::U32(a), Operand::Bool(b))),
            Op::InitPropComputed(a) => (113, Operands::One(Operand::Bool(a))),
            Op::InitMethod(a, b, c) => (114, Operands::Three(Operand::U32(a), Operand::U32(b), Operand::U16(c))),
            Op::CopyDataProps => (115, Operands::Zero),
            Op::SetProtoLit => (116, Operands::Zero),
            Op::MakeClass(a, b) => (117, Operands::Two(Operand::U32(a), Operand::U32(b))),
            Op::Nip => (118, Operands::Zero),
            Op::SuperGet(a) => (119, Operands::One(Operand::U32(a))),
            Op::SuperGetElem => (120, Operands::Zero),
            Op::SuperBase => (121, Operands::Zero),
            Op::SuperMethod(a, b) => (122, Operands::Two(Operand::U32(a), Operand::Bool(b))),
            Op::SuperMethodElem(a) => (123, Operands::One(Operand::Bool(a))),
            Op::ObjRest(a, b) => (124, Operands::Two(Operand::U32(a), Operand::U16(b))),
            Op::NewArrayLit => (125, Operands::Zero),
            Op::ArrayAppend => (126, Operands::Zero),
            Op::ArrayAppendSpread => (127, Operands::Zero),
            Op::ArrayHole => (128, Operands::Zero),
            Op::SwitchLK(a, b) => (129, Operands::Two(Operand::U16(a), Operand::U32(b))),
            Op::SuperCtor => (130, Operands::Zero),
            Op::SuperCall(a) => (131, Operands::One(Operand::U16(a))),
            Op::SuperCallSpread(a) => (132, Operands::One(Operand::U16(a))),
            Op::DerivedReturn => (133, Operands::Zero),
            Op::InitialYield => (134, Operands::Zero),
            Op::Yield => (135, Operands::Zero),
            Op::YieldDelegate(a) => (136, Operands::One(Operand::U16(a))),
            Op::LoadCallee => (137, Operands::Zero),
            Op::DefineField(a, b) => (138, Operands::Two(Operand::U32(a), Operand::Bool(b))),
            Op::BlkNew(a, b) => (139, Operands::Two(Operand::U16(a), Operand::U16(b))),
            Op::BlkDecl(a, b, c) => (140, Operands::Three(Operand::U16(a), Operand::U32(b), Operand::Bool(c))),
            Op::BlkCopy(a) => (141, Operands::One(Operand::U16(a))),
            Op::BlkLoad(a, b) => (142, Operands::Two(Operand::U16(a), Operand::U32(b))),
            Op::BlkStore(a, b) => (143, Operands::Two(Operand::U16(a), Operand::U32(b))),
            Op::BlkInit(a, b) => (144, Operands::Two(Operand::U16(a), Operand::U32(b))),
            Op::BlkUpdate(a, b, c) => (145, Operands::Three(Operand::U16(a), Operand::U32(b), Operand::Upd(c))),
            Op::InEnv(a) => (146, Operands::One(Operand::U16(a))),
            Op::TailCall(a, b) => (147, Operands::Two(Operand::U16(a), Operand::Bool(b))),
            Op::ImportCall(a, b) => (148, Operands::Two(Operand::U8(a), Operand::Bool(b))),
            Op::GetAsyncIter => (149, Operands::Zero),
            Op::AsyncIterNext(a, b, c) => (150, Operands::Three(Operand::U16(a), Operand::U16(b), Operand::U16(c))),
            Op::AsyncIterResult(a) => (151, Operands::One(Operand::U16(a))),
            Op::AsyncCloseCall(a, b) => (152, Operands::Two(Operand::U16(a), Operand::U16(b))),
            Op::AsyncCloseCheck(a) => (153, Operands::One(Operand::U16(a))),
            Op::AsyncDelegateInit => (154, Operands::Zero),
            Op::AsyncDelegateCall(a, b, c) => (155, Operands::Three(Operand::U16(a), Operand::U16(b), Operand::U16(c))),
            Op::AsyncDelegateResult(a, b) => (156, Operands::Two(Operand::U16(a), Operand::U16(b))),
            Op::AsyncDelegateCloseReject(a, b) => (157, Operands::Two(Operand::U16(a), Operand::U16(b))),
            Op::AsyncDelegateSpecial(a, b) => (158, Operands::Two(Operand::U16(a), Operand::Bool(b))),
            Op::NewSpread(a) => (159, Operands::One(Operand::U16(a))),
            Op::IterRestL(a, b) => (160, Operands::Two(Operand::U16(a), Operand::U16(b))),
            Op::TailCallSpread(a, b) => (161, Operands::Two(Operand::U16(a), Operand::Bool(b))),
            Op::ArrayCbGuard(a) => (162, Operands::One(Operand::U8(a))),
            Op::ArrayCbHas => (163, Operands::Zero),
            Op::ArrayCbDone(a) => (164, Operands::One(Operand::U32(a))),
            Op::ArgsLen(a, b) => (165, Operands::Two(Operand::U16(a), Operand::U16(b))),
            Op::ArgsGet(a, b) => (166, Operands::Two(Operand::U16(a), Operand::U16(b))),
            Op::LoadNewTarget => (167, Operands::Zero),
            Op::Concat(a) => (168, Operands::One(Operand::U16(a))),
        }
    }

    /// The op with tag `tag` and operands `o`.
    #[verifier::rlimit(100)]
    #[verifier::spinoff_prover]
    pub fn from_parts(tag: u8, o: Operands) -> (r: Op)
        requires
            tag < OP_COUNT,
            tys_of(o) == tag_tys(tag),
        ensures
            op_parts(r) == (tag, o),
    {
        match (tag, o) {
            (0, Operands::One(Operand::U32(a))) => Op::Const(a),
            (1, Operands::Zero) => Op::Undef,
            (2, Operands::Zero) => Op::Dup,
            (3, Operands::Zero) => Op::Pop,
            (4, Operands::One(Operand::U16(a))) => Op::LoadLocal(a),
            (5, Operands::One(Operand::U16(a))) => Op::StoreLocal(a),
            (6, Operands::One(Operand::U32(a))) => Op::LoadCap(a),
            (7, Operands::One(Operand::U32(a))) => Op::StoreCap(a),
            (8, Operands::One(Operand::U32(a))) => Op::StoreCapInit(a),
            (9, Operands::Two(Operand::U32(a), Operand::Upd(b))) => Op::UpdateCap(a, b),
            (10, Operands::Two(Operand::U32(a), Operand::Upd(b))) => Op::UpdateName(a, b),
            (11, Operands::Three(Operand::U32(a), Operand::U32(b), Operand::Upd(c))) => Op::UpdateNameCached(a, b, c),
            (12, Operands::Two(Operand::U32(a), Operand::U32(b))) => Op::MakeClosure(a, b),
            (13, Operands::Two(Operand::U16(a), Operand::Upd(b))) => Op::UpdateLocal(a, b),
            (14, Operands::One(Operand::U16(a))) => Op::Tdz(a),
            (15, Operands::Two(Operand::U32(a), Operand::U32(b))) => Op::LoadName(a, b),
            (16, Operands::One(Operand::U32(a))) => Op::StoreName(a),
            (17, Operands::Two(Operand::U32(a), Operand::U32(b))) => Op::StoreNameCached(a, b),
            (18, Operands::Zero) => Op::LoadThis,
            (19, Operands::Zero) => Op::LoadLexicalThis,
            (20, Operands::Two(Operand::U32(a), Operand::U32(b))) => Op::GetProp(a, b),
            (21, Operands::Two(Operand::U32(a), Operand::U32(b))) => Op::GetPropThis(a, b),
            (22, Operands::Three(Operand::U16(a), Operand::U32(b), Operand::U32(c))) => Op::GetPropLocal(a, b, c),
            (23, Operands::Two(Operand::U32(a), Operand::U32(b))) => Op::SetProp(a, b),
            (24, Operands::Two(Operand::U32(a), Operand::U32(b))) => Op::SetPropDrop(a, b),
            (25, Operands::Two(Operand::U32(a), Operand::U32(b))) => Op::SetPropThisDrop(a, b),
            (26, Operands::Three(Operand::U16(a), Operand::U32(b), Operand::U32(c))) => Op::SetPropLocalDrop(a, b, c),
            (27, Operands::Zero) => Op::ToStr,
            (28, Operands::Zero) => Op::GetIter,
            (29, Operands::Zero) => Op::ForInKeys,
            (30, Operands::Three(Operand::U16(a), Operand::U16(b), Operand::U16(c))) => Op::ForInStepL(a, b, c),
            (31, Operands::Two(Operand::U16(a), Operand::U16(b))) => Op::IterStepL(a, b),
            (32, Operands::One(Operand::U16(a))) => Op::IterCloseL(a),
            (33, Operands::One(Operand::U16(a))) => Op::IterAbortL(a),
            (34, Operands::Zero) => Op::DestructureGuard,
            (35, Operands::One(Operand::U16(a))) => Op::DestructureArr(a),
            (36, Operands::Two(Operand::U32(a), Operand::Bool(b))) => Op::DeleteProp(a, b),
            (37, Operands::One(Operand::Bool(a))) => Op::DeleteElem(a),
            (38, Operands::One(Operand::U16(a))) => Op::CallSpread(a),
            (39, Operands::One(Operand::U16(a))) => Op::CallSpreadThis(a),
            (40, Operands::Two(Operand::U32(a), Operand::U32(b))) => Op::AppendProp(a, b),
            (41, Operands::Zero) => Op::GetElem,
            (42, Operands::Zero) => Op::SetElem,
            (43, Operands::Zero) => Op::SetElemDrop,
            (44, Operands::One(Operand::U16(a))) => Op::GetElemLocal(a),
            (45, Operands::One(Operand::U16(a))) => Op::SetElemLocal(a),
            (46, Operands::One(Operand::U16(a))) => Op::SetElemLocalDrop(a),
            (47, Operands::Three(Operand::U32(a), Operand::U32(b), Operand::Upd(c))) => Op::UpdateProp(a, b, c),
            (48, Operands::One(Operand::Upd(a))) => Op::UpdateElem(a),
            (49, Operands::Zero) => Op::ToPropKey,
            (50, Operands::One(Operand::U16(a))) => Op::ToPropKeyLocal(a),
            (51, Operands::Zero) => Op::Dup2,
            (52, Operands::Two(Operand::U32(a), Operand::U32(b))) => Op::GetMethod(a, b),
            (53, Operands::Zero) => Op::GetMethodElem,
            (54, Operands::Zero) => Op::Add,
            (55, Operands::Zero) => Op::Sub,
            (56, Operands::Zero) => Op::Mul,
            (57, Operands::Zero) => Op::Div,
            (58, Operands::Zero) => Op::Mod,
            (59, Operands::Zero) => Op::BitAnd,
            (60, Operands::Zero) => Op::BitOr,
            (61, Operands::Zero) => Op::BitXor,
            (62, Operands::Zero) => Op::Shl,
            (63, Operands::Zero) => Op::Shr,
            (64, Operands::Zero) => Op::UShr,
            (65, Operands::Zero) => Op::Lt,
            (66, Operands::Zero) => Op::Gt,
            (67, Operands::Zero) => Op::Le,
            (68, Operands::Zero) => Op::Ge,
            (69, Operands::Zero) => Op::EqEq,
            (70, Operands::Zero) => Op::NotEq,
            (71, Operands::Zero) => Op::StrictEq,
            (72, Operands::Zero) => Op::StrictNotEq,
            (73, Operands::One(Operand::U32(a))) => Op::InstanceOf(a),
            (74, Operands::One(Operand::U32(a))) => Op::GenBin(a),
            (75, Operands::Zero) => Op::Neg,
            (76, Operands::Zero) => Op::Plus,
            (77, Operands::Zero) => Op::Not,
            (78, Operands::Zero) => Op::BitNot,
            (79, Operands::Zero) => Op::Typeof,
            (80, Operands::Two(Operand::Typeof(a), Operand::Bool(b))) => Op::TypeofIs(a, b),
            (81, Operands::One(Operand::U32(a))) => Op::TypeofName(a),
            (82, Operands::Zero) => Op::Void,
            (83, Operands::One(Operand::U32(a))) => Op::Jump(a),
            (84, Operands::One(Operand::U32(a))) => Op::JumpIfFalse(a),
            (85, Operands::Two(Operand::Cmp(a), Operand::U32(b))) => Op::JumpIfNotCmp(a, b),
            (86, Operands::Four(Operand::Cmp(a), Operand::U16(b), Operand::U16(c), Operand::U32(d))) => Op::JumpIfNotCmpLL(a, b, c, d),
            (87, Operands::Four(Operand::Cmp(a), Operand::U16(b), Operand::U32(c), Operand::U32(d))) => Op::JumpIfNotCmpLK(a, b, c, d),
            (88, Operands::Four(Operand::Arith(a), Operand::U16(b), Operand::U16(c), Operand::U16(d))) => Op::ArithLL(a, b, c, d),
            (89, Operands::Four(Operand::Arith(a), Operand::U16(b), Operand::U16(c), Operand::U32(d))) => Op::ArithLK(a, b, c, d),
            (90, Operands::One(Operand::U32(a))) => Op::JumpIfFalsePeek(a),
            (91, Operands::One(Operand::U32(a))) => Op::JumpIfTruePeek(a),
            (92, Operands::One(Operand::U32(a))) => Op::JumpIfNotNullishPeek(a),
            (93, Operands::One(Operand::U16(a))) => Op::Call(a),
            (94, Operands::Two(Operand::U32(a), Operand::U32(b))) => Op::LoadNameForCall(a, b),
            (95, Operands::One(Operand::U16(a))) => Op::CallWithThis(a),
            (96, Operands::One(Operand::U16(a))) => Op::New(a),
            (97, Operands::Two(Operand::U32(a), Operand::U32(b))) => Op::MakeRegExp(a, b),
            (98, Operands::One(Operand::U16(a))) => Op::MakeArray(a),
            (99, Operands::Three(Operand::U32(a), Operand::U16(b), Operand::U32(c))) => Op::MakeObject(a, b, c),
            (100, Operands::Zero) => Op::Throw,
            (101, Operands::Zero) => Op::Return,
            (102, Operands::Zero) => Op::ReturnUndef,
            (103, Operands::Zero) => Op::Await,
            (104, Operands::One(Operand::U32(a))) => Op::PushHandler(a),
            (105, Operands::Zero) => Op::PopHandler,
            (106, Operands::One(Operand::U32(a))) => Op::GetPrivate(a),
            (107, Operands::One(Operand::U32(a))) => Op::SetPrivate(a),
            (108, Operands::One(Operand::U32(a))) => Op::GetPrivateMethod(a),
            (109, Operands::One(Operand::U32(a))) => Op::PrivateIn(a),
            (110, Operands::Two(Operand::U32(a), Operand::Upd(b))) => Op::UpdatePrivate(a, b),
            (111, Operands::Zero) => Op::NewObject,
            (112, Operands::Two(Operand::U32(a), Operand::Bool(b))) => Op::InitProp(a, b),
            (113, Operands::One(Operand::Bool(a))) => Op::InitPropComputed(a),
            (114, Operands::Three(Operand::U32(a), Operand::U32(b), Operand::U16(c))) => Op::InitMethod(a, b, c),
            (115, Operands::Zero) => Op::CopyDataProps,
            (116, Operands::Zero) => Op::SetProtoLit,
            (117, Operands::Two(Operand::U32(a), Operand::U32(b))) => Op::MakeClass(a, b),
            (118, Operands::Zero) => Op::Nip,
            (119, Operands::One(Operand::U32(a))) => Op::SuperGet(a),
            (120, Operands::Zero) => Op::SuperGetElem,
            (121, Operands::Zero) => Op::SuperBase,
            (122, Operands::Two(Operand::U32(a), Operand::Bool(b))) => Op::SuperMethod(a, b),
            (123, Operands::One(Operand::Bool(a))) => Op::SuperMethodElem(a),
            (124, Operands::Two(Operand::U32(a), Operand::U16(b))) => Op::ObjRest(a, b),
            (125, Operands::Zero) => Op::NewArrayLit,
            (126, Operands::Zero) => Op::ArrayAppend,
            (127, Operands::Zero) => Op::ArrayAppendSpread,
            (128, Operands::Zero) => Op::ArrayHole,
            (129, Operands::Two(Operand::U16(a), Operand::U32(b))) => Op::SwitchLK(a, b),
            (130, Operands::Zero) => Op::SuperCtor,
            (131, Operands::One(Operand::U16(a))) => Op::SuperCall(a),
            (132, Operands::One(Operand::U16(a))) => Op::SuperCallSpread(a),
            (133, Operands::Zero) => Op::DerivedReturn,
            (134, Operands::Zero) => Op::InitialYield,
            (135, Operands::Zero) => Op::Yield,
            (136, Operands::One(Operand::U16(a))) => Op::YieldDelegate(a),
            (137, Operands::Zero) => Op::LoadCallee,
            (138, Operands::Two(Operand::U32(a), Operand::Bool(b))) => Op::DefineField(a, b),
            (139, Operands::Two(Operand::U16(a), Operand::U16(b))) => Op::BlkNew(a, b),
            (140, Operands::Three(Operand::U16(a), Operand::U32(b), Operand::Bool(c))) => Op::BlkDecl(a, b, c),
            (141, Operands::One(Operand::U16(a))) => Op::BlkCopy(a),
            (142, Operands::Two(Operand::U16(a), Operand::U32(b))) => Op::BlkLoad(a, b),
            (143, Operands::Two(Operand::U16(a), Operand::U32(b))) => Op::BlkStore(a, b),
            (144, Operands::Two(Operand::U16(a), Operand::U32(b))) => Op::BlkInit(a, b),
            (145, Operands::Three(Operand::U16(a), Operand::U32(b), Operand::Upd(c))) => Op::BlkUpdate(a, b, c),
            (146, Operands::One(Operand::U16(a))) => Op::InEnv(a),
            (147, Operands::Two(Operand::U16(a), Operand::Bool(b))) => Op::TailCall(a, b),
            (148, Operands::Two(Operand::U8(a), Operand::Bool(b))) => Op::ImportCall(a, b),
            (149, Operands::Zero) => Op::GetAsyncIter,
            (150, Operands::Three(Operand::U16(a), Operand::U16(b), Operand::U16(c))) => Op::AsyncIterNext(a, b, c),
            (151, Operands::One(Operand::U16(a))) => Op::AsyncIterResult(a),
            (152, Operands::Two(Operand::U16(a), Operand::U16(b))) => Op::AsyncCloseCall(a, b),
            (153, Operands::One(Operand::U16(a))) => Op::AsyncCloseCheck(a),
            (154, Operands::Zero) => Op::AsyncDelegateInit,
            (155, Operands::Three(Operand::U16(a), Operand::U16(b), Operand::U16(c))) => Op::AsyncDelegateCall(a, b, c),
            (156, Operands::Two(Operand::U16(a), Operand::U16(b))) => Op::AsyncDelegateResult(a, b),
            (157, Operands::Two(Operand::U16(a), Operand::U16(b))) => Op::AsyncDelegateCloseReject(a, b),
            (158, Operands::Two(Operand::U16(a), Operand::Bool(b))) => Op::AsyncDelegateSpecial(a, b),
            (159, Operands::One(Operand::U16(a))) => Op::NewSpread(a),
            (160, Operands::Two(Operand::U16(a), Operand::U16(b))) => Op::IterRestL(a, b),
            (161, Operands::Two(Operand::U16(a), Operand::Bool(b))) => Op::TailCallSpread(a, b),
            (162, Operands::One(Operand::U8(a))) => Op::ArrayCbGuard(a),
            (163, Operands::Zero) => Op::ArrayCbHas,
            (164, Operands::One(Operand::U32(a))) => Op::ArrayCbDone(a),
            (165, Operands::Two(Operand::U16(a), Operand::U16(b))) => Op::ArgsLen(a, b),
            (166, Operands::Two(Operand::U16(a), Operand::U16(b))) => Op::ArgsGet(a, b),
            (167, Operands::Zero) => Op::LoadNewTarget,
            (168, Operands::One(Operand::U16(a))) => Op::Concat(a),
            _ => Op::Undef,
        }
    }
}

/// The operand types of the op with tag `tag`.
pub fn operand_tys(tag: u8) -> (r: OperandTys)
    ensures
        r == tag_tys(tag),
{
    match tag {
        0 | 6 | 7 | 8 | 16 | 73 | 74 | 81 | 83 | 84 | 90 | 91 | 92 | 104 | 106 | 107 | 108 | 109 | 119 | 164 => OperandTys::One(OperandTy::U32),
        4 | 5 | 14 | 32 | 33 | 35 | 38 | 39 | 44 | 45 | 46 | 50 | 93 | 95 | 96 | 98 | 131 | 132 | 136 | 141 | 146 | 151 | 153 | 159 | 168 => OperandTys::One(OperandTy::U16),
        9 | 10 | 110 => OperandTys::Two(OperandTy::U32, OperandTy::Upd),
        11 | 47 => OperandTys::Three(OperandTy::U32, OperandTy::U32, OperandTy::Upd),
        12 | 15 | 17 | 20 | 21 | 23 | 24 | 25 | 40 | 52 | 94 | 97 | 117 => OperandTys::Two(OperandTy::U32, OperandTy::U32),
        13 => OperandTys::Two(OperandTy::U16, OperandTy::Upd),
        22 | 26 => OperandTys::Three(OperandTy::U16, OperandTy::U32, OperandTy::U32),
        30 | 150 | 155 => OperandTys::Three(OperandTy::U16, OperandTy::U16, OperandTy::U16),
        31 | 139 | 152 | 156 | 157 | 160 | 165 | 166 => OperandTys::Two(OperandTy::U16, OperandTy::U16),
        36 | 112 | 122 | 138 => OperandTys::Two(OperandTy::U32, OperandTy::Bool),
        37 | 113 | 123 => OperandTys::One(OperandTy::Bool),
        48 => OperandTys::One(OperandTy::Upd),
        80 => OperandTys::Two(OperandTy::Typeof, OperandTy::Bool),
        85 => OperandTys::Two(OperandTy::Cmp, OperandTy::U32),
        86 => OperandTys::Four(OperandTy::Cmp, OperandTy::U16, OperandTy::U16, OperandTy::U32),
        87 => OperandTys::Four(OperandTy::Cmp, OperandTy::U16, OperandTy::U32, OperandTy::U32),
        88 => OperandTys::Four(OperandTy::Arith, OperandTy::U16, OperandTy::U16, OperandTy::U16),
        89 => OperandTys::Four(OperandTy::Arith, OperandTy::U16, OperandTy::U16, OperandTy::U32),
        99 => OperandTys::Three(OperandTy::U32, OperandTy::U16, OperandTy::U32),
        114 => OperandTys::Three(OperandTy::U32, OperandTy::U32, OperandTy::U16),
        124 => OperandTys::Two(OperandTy::U32, OperandTy::U16),
        129 | 142 | 143 | 144 => OperandTys::Two(OperandTy::U16, OperandTy::U32),
        140 => OperandTys::Three(OperandTy::U16, OperandTy::U32, OperandTy::Bool),
        145 => OperandTys::Three(OperandTy::U16, OperandTy::U32, OperandTy::Upd),
        147 | 158 | 161 => OperandTys::Two(OperandTy::U16, OperandTy::Bool),
        148 => OperandTys::Two(OperandTy::U8, OperandTy::Bool),
        162 => OperandTys::One(OperandTy::U8),
        _ => OperandTys::Zero,
    }
}

/// Tags are dense, and an op's operands have the types its tag says.
#[verifier::rlimit(100)]
#[verifier::spinoff_prover]
pub proof fn lemma_op_parts(op: Op)
    ensures
        op_parts(op).0 < OP_COUNT,
        tys_of(op_parts(op).1) == tag_tys(op_parts(op).0),
{
}

/// Distinct ops have distinct parts.
#[verifier::rlimit(100)]
#[verifier::spinoff_prover]
pub proof fn lemma_op_parts_injective(a: Op, b: Op)
    requires
        op_parts(a) == op_parts(b),
    ensures
        a == b,
{
}

} // verus!
