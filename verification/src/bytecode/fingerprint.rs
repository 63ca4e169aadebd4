//! The identity of the encoding, and what its errors say.

use super::list_codec::EncodeError;
use super::wire::DecodeError;
use crate::text::{dec_digits, push_dec};
use vstd::prelude::*;
use vstd::utf8::encode_utf8;

verus! {

/// To be raised with any change to the chunk layout that the tables below do not capture.
pub const CODEC_VERSION: u32 = 1;

/// The op table.
pub const OP_SIG: &'static str = "0 => Const(u32); 1 => Undef; 2 => Dup; 3 => Pop; 4 => LoadLocal(u16); 5 => \
    StoreLocal(u16); 6 => LoadCap(u32); 7 => StoreCap(u32); 8 => StoreCapInit(u32); 9 => \
    UpdateCap(u32, UpdKind); 10 => UpdateName(u32, UpdKind); 11 => UpdateNameCached(u32, \
    u32, UpdKind); 12 => MakeClosure(u32, u32); 13 => UpdateLocal(u16, UpdKind); 14 => \
    Tdz(u16); 15 => LoadName(u32, u32); 16 => StoreName(u32); 17 => StoreNameCached(u32, \
    u32); 18 => LoadThis; 19 => LoadLexicalThis; 20 => GetProp(u32, u32); 21 => \
    GetPropThis(u32, u32); 22 => GetPropLocal(u16, u32, u32); 23 => SetProp(u32, u32); 24 => \
    SetPropDrop(u32, u32); 25 => SetPropThisDrop(u32, u32); 26 => SetPropLocalDrop(u16, u32, \
    u32); 27 => ToStr; 28 => GetIter; 29 => ForInKeys; 30 => ForInStepL(u16, u16, u16); 31 \
    => IterStepL(u16, u16); 32 => IterCloseL(u16); 33 => IterAbortL(u16); 34 => \
    DestructureGuard; 35 => DestructureArr(u16); 36 => DeleteProp(u32, bool); 37 => \
    DeleteElem(bool); 38 => CallSpread(u16); 39 => CallSpreadThis(u16); 40 => \
    AppendProp(u32, u32); 41 => GetElem; 42 => SetElem; 43 => SetElemDrop; 44 => \
    GetElemLocal(u16); 45 => SetElemLocal(u16); 46 => SetElemLocalDrop(u16); 47 => \
    UpdateProp(u32, u32, UpdKind); 48 => UpdateElem(UpdKind); 49 => ToPropKey; 50 => \
    ToPropKeyLocal(u16); 51 => Dup2; 52 => GetMethod(u32, u32); 53 => GetMethodElem; 54 => \
    Add; 55 => Sub; 56 => Mul; 57 => Div; 58 => Mod; 59 => BitAnd; 60 => BitOr; 61 => \
    BitXor; 62 => Shl; 63 => Shr; 64 => UShr; 65 => Lt; 66 => Gt; 67 => Le; 68 => Ge; 69 => \
    EqEq; 70 => NotEq; 71 => StrictEq; 72 => StrictNotEq; 73 => InstanceOf(u32); 74 => \
    GenBin(u32); 75 => Neg; 76 => Plus; 77 => Not; 78 => BitNot; 79 => Typeof; 80 => \
    TypeofIs(TypeofKind, bool); 81 => TypeofName(u32); 82 => Void; 83 => Jump(u32); 84 => \
    JumpIfFalse(u32); 85 => JumpIfNotCmp(CmpKind, u32); 86 => JumpIfNotCmpLL(CmpKind, u16, \
    u16, u32); 87 => JumpIfNotCmpLK(CmpKind, u16, u32, u32); 88 => ArithLL(ArithKind, u16, \
    u16, u16); 89 => ArithLK(ArithKind, u16, u16, u32); 90 => JumpIfFalsePeek(u32); 91 => \
    JumpIfTruePeek(u32); 92 => JumpIfNotNullishPeek(u32); 93 => Call(u16); 94 => \
    LoadNameForCall(u32, u32); 95 => CallWithThis(u16); 96 => New(u16); 97 => \
    MakeRegExp(u32, u32); 98 => MakeArray(u16); 99 => MakeObject(u32, u16, u32); 100 => \
    Throw; 101 => Return; 102 => ReturnUndef; 103 => Await; 104 => PushHandler(u32); 105 => \
    PopHandler; 106 => GetPrivate(u32); 107 => SetPrivate(u32); 108 => \
    GetPrivateMethod(u32); 109 => PrivateIn(u32); 110 => UpdatePrivate(u32, UpdKind); 111 => \
    NewObject; 112 => InitProp(u32, bool); 113 => InitPropComputed(bool); 114 => \
    InitMethod(u32, u32, u16); 115 => CopyDataProps; 116 => SetProtoLit; 117 => \
    MakeClass(u32, u32); 118 => Nip; 119 => SuperGet(u32); 120 => SuperGetElem; 121 => \
    SuperBase; 122 => SuperMethod(u32, bool); 123 => SuperMethodElem(bool); 124 => \
    ObjRest(u32, u16); 125 => NewArrayLit; 126 => ArrayAppend; 127 => ArrayAppendSpread; 128 \
    => ArrayHole; 129 => SwitchLK(u16, u32); 130 => SuperCtor; 131 => SuperCall(u16); 132 => \
    SuperCallSpread(u16); 133 => DerivedReturn; 134 => InitialYield; 135 => Yield; 136 => \
    YieldDelegate(u16); 137 => LoadCallee; 138 => DefineField(u32, bool); 139 => BlkNew(u16, \
    u16); 140 => BlkDecl(u16, u32, bool); 141 => BlkCopy(u16); 142 => BlkLoad(u16, u32); 143 \
    => BlkStore(u16, u32); 144 => BlkInit(u16, u32); 145 => BlkUpdate(u16, u32, UpdKind); \
    146 => InEnv(u16); 147 => TailCall(u16, bool); 148 => ImportCall(u8, bool); 149 => \
    GetAsyncIter; 150 => AsyncIterNext(u16, u16, u16); 151 => AsyncIterResult(u16); 152 => \
    AsyncCloseCall(u16, u16); 153 => AsyncCloseCheck(u16); 154 => AsyncDelegateInit; 155 => \
    AsyncDelegateCall(u16, u16, u16); 156 => AsyncDelegateResult(u16, u16); 157 => \
    AsyncDelegateCloseReject(u16, u16); 158 => AsyncDelegateSpecial(u16, bool); 159 => \
    NewSpread(u16); 160 => IterRestL(u16, u16); 161 => TailCallSpread(u16, bool); 162 => \
    ArrayCbGuard(u8); 163 => ArrayCbHas; 164 => ArrayCbDone(u32); 165 => ArgsLen(u16, u16); \
    166 => ArgsGet(u16, u16); 167 => LoadNewTarget; 168 => Concat(u16);";

pub const UPD_SIG: &'static str = "UpdKind { 0 => PreInc, 1 => PreDec, 2 => PostInc, 3 => PostDec, \
    4 => IncDiscard, 5 => DecDiscard }";

pub const TYPEOF_SIG: &'static str = "TypeofKind { 0 => Undefined, 1 => Object, 2 => Boolean, \
    3 => Number, 4 => BigInt, 5 => String, 6 => Symbol, 7 => Function }";

pub const ARITH_SIG: &'static str = "ArithKind { 0 => Add, 1 => Sub, 2 => Mul, 3 => Div, 4 => Mod, \
    5 => BitAnd, 6 => BitOr, 7 => BitXor, 8 => Shl, 9 => Shr, 10 => UShr }";

pub const COND_SIG: &'static str = "CmpKind { 0 => Lt, 1 => Gt, 2 => Le, 3 => Ge, 4 => EqEq, \
    5 => NotEq, 6 => StrictEq, 7 => StrictNotEq }";

/// The chunk fields the encoding writes, in order.
pub const CHUNK_SIG: &'static str = "ops consts(undef null false true num str bigint) names slot_names \
    n_params flags(uses_this env_this arguments_slot rest_slot derived reflect_args virt_base) var_force_resets funcs \
    cap_inits(param var fn lexical) caches obj_maps name_caches positions";

pub const FNV_BASIS: u64 = 0xcbf2_9ce4_8422_2325;

pub const FNV_PRIME: u64 = 0x0100_0000_01b3;

/// The FNV-1a hash of `s`, continued from `h`.
pub open spec fn fnv_of(h: u64, s: Seq<u8>) -> u64
    decreases s.len(),
{
    if s.len() == 0 {
        h
    } else {
        (fnv_of(h, s.drop_last()) ^ (s.last() as u64)).wrapping_mul(FNV_PRIME)
    }
}

/// Continues an FNV-1a hash over `s`.
pub fn fnv(h: u64, s: &[u8]) -> (r: u64)
    ensures
        r == fnv_of(h, s@),
{
    let mut r: u64 = h;
    let mut i: usize = 0;
    assert(s@.take(0) =~= Seq::empty());
    while i < s.len()
        invariant
            i <= s@.len(),
            r == fnv_of(h, s@.take(i as int)),
        decreases s@.len() - i,
    {
        proof {
            assert(s@.take(i + 1).drop_last() =~= s@.take(i as int));
            assert(s@.take(i + 1).last() == s@[i as int]);
        }
        r = (r ^ (s[i] as u64)).wrapping_mul(FNV_PRIME);
        i = i + 1;
    }
    assert(s@.take(i as int) =~= s@);
    r
}

/// The hash of the encoding's version and tables.
pub open spec fn tables_hash() -> u64 {
    let h = fnv_of(FNV_BASIS, vstd::bytes::spec_u32_to_le_bytes(CODEC_VERSION));
    let h = fnv_of(h, encode_utf8(OP_SIG@));
    let h = fnv_of(h, encode_utf8(UPD_SIG@));
    let h = fnv_of(h, encode_utf8(TYPEOF_SIG@));
    let h = fnv_of(h, encode_utf8(ARITH_SIG@));
    let h = fnv_of(h, encode_utf8(COND_SIG@));
    fnv_of(h, encode_utf8(CHUNK_SIG@))
}

/// The encoding's identity, which a blob's header records: a blob with another value is
/// rejected. Never 0, which means "no bytecode".
pub fn fingerprint() -> (r: u64)
    ensures
        r == (if tables_hash() == 0 {
            1
        } else {
            tables_hash()
        }),
        r != 0,
{
    let version: Vec<u8> = vstd::bytes::u32_to_le_bytes(CODEC_VERSION);
    let mut h: u64 = fnv(FNV_BASIS, version.as_slice());
    h = fnv(h, OP_SIG.as_bytes());
    h = fnv(h, UPD_SIG.as_bytes());
    h = fnv(h, TYPEOF_SIG.as_bytes());
    h = fnv(h, ARITH_SIG.as_bytes());
    h = fnv(h, COND_SIG.as_bytes());
    h = fnv(h, CHUNK_SIG.as_bytes());
    if h == 0 {
        1
    } else {
        h
    }
}

/// What an error says.
pub open spec fn decode_text(e: DecodeError) -> Seq<char> {
    match e {
        DecodeError::Truncated => "bytecode: truncated"@,
        DecodeError::VarintOverflow => "bytecode: varint overflow"@,
        DecodeError::BadCount => "bytecode: bad count"@,
        DecodeError::U32Range => "bytecode: u32 operand out of range"@,
        DecodeError::U16Range => "bytecode: u16 operand out of range"@,
        DecodeError::BadBool(t) => "bytecode: bad bool "@ + dec_digits(t as nat),
        DecodeError::BadUpdKind(t) => "bytecode: bad UpdKind "@ + dec_digits(t as nat),
        DecodeError::BadTypeofKind(t) => "bytecode: bad TypeofKind "@ + dec_digits(t as nat),
        DecodeError::BadArithKind(t) => "bytecode: bad ArithKind "@ + dec_digits(t as nat),
        DecodeError::BadCmpKind(t) => "bytecode: bad CmpKind "@ + dec_digits(t as nat),
        DecodeError::BadOpTag(t) => "bytecode: bad op tag "@ + dec_digits(t as nat),
        DecodeError::BadConstTag(t) => "bytecode: bad const tag "@ + dec_digits(t as nat),
        DecodeError::BadBigInt => "bytecode: bad bigint"@,
        DecodeError::BadString => "bytecode: bad string index"@,
        DecodeError::BadUtf8 => "bytecode: bad utf8"@,
        DecodeError::BadFunction => "bytecode: bad function index"@,
        DecodeError::BadCapInitTag(t) => "bytecode: bad cap init tag "@ + dec_digits(t as nat),
        DecodeError::BadCacheCount => "bytecode: bad cache count"@,
        DecodeError::FunctionCount => "bytecode: function count does not match the unit's AST"@,
        DecodeError::BadEntryOrder => "bytecode: bad entry order"@,
        DecodeError::BadEntryKind(t) => "bytecode: bad entry kind "@ + dec_digits(t as nat),
        DecodeError::TrailingSection => "bytecode: trailing bytes in section"@,
        DecodeError::TrailingChunk => "bytecode: trailing bytes in chunk"@,
    }
}

impl DecodeError {
    /// What the error says.
    pub fn message(self) -> (r: String)
        ensures
            r@ == decode_text(self),
    {
        let (text, tag): (&'static str, Option<u8>) = match self {
            DecodeError::Truncated => ("bytecode: truncated", None),
            DecodeError::VarintOverflow => ("bytecode: varint overflow", None),
            DecodeError::BadCount => ("bytecode: bad count", None),
            DecodeError::U32Range => ("bytecode: u32 operand out of range", None),
            DecodeError::U16Range => ("bytecode: u16 operand out of range", None),
            DecodeError::BadBool(t) => ("bytecode: bad bool ", Some(t)),
            DecodeError::BadUpdKind(t) => ("bytecode: bad UpdKind ", Some(t)),
            DecodeError::BadTypeofKind(t) => ("bytecode: bad TypeofKind ", Some(t)),
            DecodeError::BadArithKind(t) => ("bytecode: bad ArithKind ", Some(t)),
            DecodeError::BadCmpKind(t) => ("bytecode: bad CmpKind ", Some(t)),
            DecodeError::BadOpTag(t) => ("bytecode: bad op tag ", Some(t)),
            DecodeError::BadConstTag(t) => ("bytecode: bad const tag ", Some(t)),
            DecodeError::BadBigInt => ("bytecode: bad bigint", None),
            DecodeError::BadString => ("bytecode: bad string index", None),
            DecodeError::BadUtf8 => ("bytecode: bad utf8", None),
            DecodeError::BadFunction => ("bytecode: bad function index", None),
            DecodeError::BadCapInitTag(t) => ("bytecode: bad cap init tag ", Some(t)),
            DecodeError::BadCacheCount => ("bytecode: bad cache count", None),
            DecodeError::FunctionCount => ("bytecode: function count does not match the unit's AST", None),
            DecodeError::BadEntryOrder => ("bytecode: bad entry order", None),
            DecodeError::BadEntryKind(t) => ("bytecode: bad entry kind ", Some(t)),
            DecodeError::TrailingSection => ("bytecode: trailing bytes in section", None),
            DecodeError::TrailingChunk => ("bytecode: trailing bytes in chunk", None),
        };
        let mut r: String = text.to_owned();
        if let Some(t) = tag {
            push_dec(&mut r, t as u64);
        }
        r
    }
}

/// What an error says.
pub open spec fn encode_text(e: EncodeError) -> Seq<char> {
    match e {
        EncodeError::Classes => "class definitions are not carried by the codec"@,
        EncodeError::TablesDisagree => "chunk tables disagree with the compiler's invariants"@,
        EncodeError::Constant => "constant is not a primitive literal"@,
        EncodeError::Function => "inner function is not a node of the unit's AST"@,
    }
}

impl EncodeError {
    /// What the error says.
    pub fn message(self) -> (r: String)
        ensures
            r@ == encode_text(self),
    {
        let text: &'static str = match self {
            EncodeError::Classes => "class definitions are not carried by the codec",
            EncodeError::TablesDisagree => "chunk tables disagree with the compiler's invariants",
            EncodeError::Constant => "constant is not a primitive literal",
            EncodeError::Function => "inner function is not a node of the unit's AST",
        };
        text.to_owned()
    }
}

} // verus!
