//! The numbers and operands of the ops in the encoding, and of the kinds that are operands.

use super::op::{
    op_parts, ArithKind, CmpKind, Op, Operand, OperandTy, Operands, TypeofKind, UpdKind,
};
use super::op_codec::{arith_tag, cond_tag, enum_operand, op_bytes, operand_bytes, typeof_tag, upd_tag};
use super::wire::DecodeError;
use vstd::prelude::*;

verus! {

/// The numbers and operands of the ops for loads, stores and property access.
pub proof fn lemma_numbers_of_loads_and_properties(op: Op)
    ensures
        op matches Op::Const(a) ==> op_parts(op) == (0u8, Operands::One(Operand::U32(a))),
        op is Undef ==> op_parts(op) == (1u8, Operands::Zero),
        op is Dup ==> op_parts(op) == (2u8, Operands::Zero),
        op is Pop ==> op_parts(op) == (3u8, Operands::Zero),
        op matches Op::LoadLocal(a) ==> op_parts(op) == (4u8, Operands::One(Operand::U16(a))),
        op matches Op::StoreLocal(a) ==> op_parts(op) == (5u8, Operands::One(Operand::U16(a))),
        op matches Op::LoadCap(a) ==> op_parts(op) == (6u8, Operands::One(Operand::U32(a))),
        op matches Op::StoreCap(a) ==> op_parts(op) == (7u8, Operands::One(Operand::U32(a))),
        op matches Op::StoreCapInit(a) ==> op_parts(op) == (8u8, Operands::One(Operand::U32(a))),
        op matches Op::UpdateCap(a, b) ==> op_parts(op) == (9u8, Operands::Two(Operand::U32(a), Operand::Upd(b))),
        op matches Op::UpdateName(a, b) ==> op_parts(op) == (10u8, Operands::Two(Operand::U32(a), Operand::Upd(b))),
        op matches Op::UpdateNameCached(a, b, c) ==> op_parts(op) == (11u8, Operands::Three(Operand::U32(a), Operand::U32(b), Operand::Upd(c))),
        op matches Op::MakeClosure(a, b) ==> op_parts(op) == (12u8, Operands::Two(Operand::U32(a), Operand::U32(b))),
        op matches Op::UpdateLocal(a, b) ==> op_parts(op) == (13u8, Operands::Two(Operand::U16(a), Operand::Upd(b))),
        op matches Op::Tdz(a) ==> op_parts(op) == (14u8, Operands::One(Operand::U16(a))),
        op matches Op::LoadName(a, b) ==> op_parts(op) == (15u8, Operands::Two(Operand::U32(a), Operand::U32(b))),
        op matches Op::StoreName(a) ==> op_parts(op) == (16u8, Operands::One(Operand::U32(a))),
        op matches Op::StoreNameCached(a, b) ==> op_parts(op) == (17u8, Operands::Two(Operand::U32(a), Operand::U32(b))),
        op is LoadThis ==> op_parts(op) == (18u8, Operands::Zero),
        op is LoadLexicalThis ==> op_parts(op) == (19u8, Operands::Zero),
        op matches Op::GetProp(a, b) ==> op_parts(op) == (20u8, Operands::Two(Operand::U32(a), Operand::U32(b))),
        op matches Op::GetPropThis(a, b) ==> op_parts(op) == (21u8, Operands::Two(Operand::U32(a), Operand::U32(b))),
        op matches Op::GetPropLocal(a, b, c) ==> op_parts(op) == (22u8, Operands::Three(Operand::U16(a), Operand::U32(b), Operand::U32(c))),
        op matches Op::SetProp(a, b) ==> op_parts(op) == (23u8, Operands::Two(Operand::U32(a), Operand::U32(b))),
        op matches Op::SetPropDrop(a, b) ==> op_parts(op) == (24u8, Operands::Two(Operand::U32(a), Operand::U32(b))),
        op matches Op::SetPropThisDrop(a, b) ==> op_parts(op) == (25u8, Operands::Two(Operand::U32(a), Operand::U32(b))),
        op matches Op::SetPropLocalDrop(a, b, c) ==> op_parts(op) == (26u8, Operands::Three(Operand::U16(a), Operand::U32(b), Operand::U32(c))),
{
}

/// The numbers and operands of the ops for iteration, elements and calls with spread.
pub proof fn lemma_numbers_of_iteration_and_elements(op: Op)
    ensures
        op is ToStr ==> op_parts(op) == (27u8, Operands::Zero),
        op is GetIter ==> op_parts(op) == (28u8, Operands::Zero),
        op is ForInKeys ==> op_parts(op) == (29u8, Operands::Zero),
        op matches Op::ForInStepL(a, b, c) ==> op_parts(op) == (30u8, Operands::Three(Operand::U16(a), Operand::U16(b), Operand::U16(c))),
        op matches Op::IterStepL(a, b) ==> op_parts(op) == (31u8, Operands::Two(Operand::U16(a), Operand::U16(b))),
        op matches Op::IterCloseL(a) ==> op_parts(op) == (32u8, Operands::One(Operand::U16(a))),
        op matches Op::IterAbortL(a) ==> op_parts(op) == (33u8, Operands::One(Operand::U16(a))),
        op is DestructureGuard ==> op_parts(op) == (34u8, Operands::Zero),
        op matches Op::DestructureArr(a) ==> op_parts(op) == (35u8, Operands::One(Operand::U16(a))),
        op matches Op::DeleteProp(a, b) ==> op_parts(op) == (36u8, Operands::Two(Operand::U32(a), Operand::Bool(b))),
        op matches Op::DeleteElem(a) ==> op_parts(op) == (37u8, Operands::One(Operand::Bool(a))),
        op matches Op::CallSpread(a) ==> op_parts(op) == (38u8, Operands::One(Operand::U16(a))),
        op matches Op::CallSpreadThis(a) ==> op_parts(op) == (39u8, Operands::One(Operand::U16(a))),
        op matches Op::AppendProp(a, b) ==> op_parts(op) == (40u8, Operands::Two(Operand::U32(a), Operand::U32(b))),
        op is GetElem ==> op_parts(op) == (41u8, Operands::Zero),
        op is SetElem ==> op_parts(op) == (42u8, Operands::Zero),
        op is SetElemDrop ==> op_parts(op) == (43u8, Operands::Zero),
        op matches Op::GetElemLocal(a) ==> op_parts(op) == (44u8, Operands::One(Operand::U16(a))),
        op matches Op::SetElemLocal(a) ==> op_parts(op) == (45u8, Operands::One(Operand::U16(a))),
        op matches Op::SetElemLocalDrop(a) ==> op_parts(op) == (46u8, Operands::One(Operand::U16(a))),
        op matches Op::UpdateProp(a, b, c) ==> op_parts(op) == (47u8, Operands::Three(Operand::U32(a), Operand::U32(b), Operand::Upd(c))),
        op matches Op::UpdateElem(a) ==> op_parts(op) == (48u8, Operands::One(Operand::Upd(a))),
        op is ToPropKey ==> op_parts(op) == (49u8, Operands::Zero),
        op matches Op::ToPropKeyLocal(a) ==> op_parts(op) == (50u8, Operands::One(Operand::U16(a))),
        op is Dup2 ==> op_parts(op) == (51u8, Operands::Zero),
        op matches Op::GetMethod(a, b) ==> op_parts(op) == (52u8, Operands::Two(Operand::U32(a), Operand::U32(b))),
        op is GetMethodElem ==> op_parts(op) == (53u8, Operands::Zero),
{
}

/// The numbers and operands of the ops for operators.
pub proof fn lemma_numbers_of_operators(op: Op)
    ensures
        op is Add ==> op_parts(op) == (54u8, Operands::Zero),
        op is Sub ==> op_parts(op) == (55u8, Operands::Zero),
        op is Mul ==> op_parts(op) == (56u8, Operands::Zero),
        op is Div ==> op_parts(op) == (57u8, Operands::Zero),
        op is Mod ==> op_parts(op) == (58u8, Operands::Zero),
        op is BitAnd ==> op_parts(op) == (59u8, Operands::Zero),
        op is BitOr ==> op_parts(op) == (60u8, Operands::Zero),
        op is BitXor ==> op_parts(op) == (61u8, Operands::Zero),
        op is Shl ==> op_parts(op) == (62u8, Operands::Zero),
        op is Shr ==> op_parts(op) == (63u8, Operands::Zero),
        op is UShr ==> op_parts(op) == (64u8, Operands::Zero),
        op is Lt ==> op_parts(op) == (65u8, Operands::Zero),
        op is Gt ==> op_parts(op) == (66u8, Operands::Zero),
        op is Le ==> op_parts(op) == (67u8, Operands::Zero),
        op is Ge ==> op_parts(op) == (68u8, Operands::Zero),
        op is EqEq ==> op_parts(op) == (69u8, Operands::Zero),
        op is NotEq ==> op_parts(op) == (70u8, Operands::Zero),
        op is StrictEq ==> op_parts(op) == (71u8, Operands::Zero),
        op is StrictNotEq ==> op_parts(op) == (72u8, Operands::Zero),
        op matches Op::InstanceOf(a) ==> op_parts(op) == (73u8, Operands::One(Operand::U32(a))),
        op matches Op::GenBin(a) ==> op_parts(op) == (74u8, Operands::One(Operand::U32(a))),
        op is Neg ==> op_parts(op) == (75u8, Operands::Zero),
        op is Plus ==> op_parts(op) == (76u8, Operands::Zero),
        op is Not ==> op_parts(op) == (77u8, Operands::Zero),
        op is BitNot ==> op_parts(op) == (78u8, Operands::Zero),
        op is Typeof ==> op_parts(op) == (79u8, Operands::Zero),
        op matches Op::TypeofIs(a, b) ==> op_parts(op) == (80u8, Operands::Two(Operand::Typeof(a), Operand::Bool(b))),
        op matches Op::TypeofName(a) ==> op_parts(op) == (81u8, Operands::One(Operand::U32(a))),
        op is Void ==> op_parts(op) == (82u8, Operands::Zero),
{
}

/// The numbers and operands of the ops for jumps, calls and literals.
pub proof fn lemma_numbers_of_jumps_and_calls(op: Op)
    ensures
        op matches Op::Jump(a) ==> op_parts(op) == (83u8, Operands::One(Operand::U32(a))),
        op matches Op::JumpIfFalse(a) ==> op_parts(op) == (84u8, Operands::One(Operand::U32(a))),
        op matches Op::JumpIfNotCmp(a, b) ==> op_parts(op) == (85u8, Operands::Two(Operand::Cmp(a), Operand::U32(b))),
        op matches Op::JumpIfNotCmpLL(a, b, c, d) ==> op_parts(op) == (86u8, Operands::Four(Operand::Cmp(a), Operand::U16(b), Operand::U16(c), Operand::U32(d))),
        op matches Op::JumpIfNotCmpLK(a, b, c, d) ==> op_parts(op) == (87u8, Operands::Four(Operand::Cmp(a), Operand::U16(b), Operand::U32(c), Operand::U32(d))),
        op matches Op::ArithLL(a, b, c, d) ==> op_parts(op) == (88u8, Operands::Four(Operand::Arith(a), Operand::U16(b), Operand::U16(c), Operand::U16(d))),
        op matches Op::ArithLK(a, b, c, d) ==> op_parts(op) == (89u8, Operands::Four(Operand::Arith(a), Operand::U16(b), Operand::U16(c), Operand::U32(d))),
        op matches Op::JumpIfFalsePeek(a) ==> op_parts(op) == (90u8, Operands::One(Operand::U32(a))),
        op matches Op::JumpIfTruePeek(a) ==> op_parts(op) == (91u8, Operands::One(Operand::U32(a))),
        op matches Op::JumpIfNotNullishPeek(a) ==> op_parts(op) == (92u8, Operands::One(Operand::U32(a))),
        op matches Op::Call(a) ==> op_parts(op) == (93u8, Operands::One(Operand::U16(a))),
        op matches Op::LoadNameForCall(a, b) ==> op_parts(op) == (94u8, Operands::Two(Operand::U32(a), Operand::U32(b))),
        op matches Op::CallWithThis(a) ==> op_parts(op) == (95u8, Operands::One(Operand::U16(a))),
        op matches Op::New(a) ==> op_parts(op) == (96u8, Operands::One(Operand::U16(a))),
        op matches Op::MakeRegExp(a, b) ==> op_parts(op) == (97u8, Operands::Two(Operand::U32(a), Operand::U32(b))),
        op matches Op::MakeArray(a) ==> op_parts(op) == (98u8, Operands::One(Operand::U16(a))),
        op matches Op::MakeObject(a, b, c) ==> op_parts(op) == (99u8, Operands::Three(Operand::U32(a), Operand::U16(b), Operand::U32(c))),
        op is Throw ==> op_parts(op) == (100u8, Operands::Zero),
        op is Return ==> op_parts(op) == (101u8, Operands::Zero),
        op is ReturnUndef ==> op_parts(op) == (102u8, Operands::Zero),
        op is Await ==> op_parts(op) == (103u8, Operands::Zero),
        op matches Op::PushHandler(a) ==> op_parts(op) == (104u8, Operands::One(Operand::U32(a))),
{
}

/// The numbers and operands of the ops for private members, objects and classes.
pub proof fn lemma_numbers_of_objects_and_classes(op: Op)
    ensures
        op is PopHandler ==> op_parts(op) == (105u8, Operands::Zero),
        op matches Op::GetPrivate(a) ==> op_parts(op) == (106u8, Operands::One(Operand::U32(a))),
        op matches Op::SetPrivate(a) ==> op_parts(op) == (107u8, Operands::One(Operand::U32(a))),
        op matches Op::GetPrivateMethod(a) ==> op_parts(op) == (108u8, Operands::One(Operand::U32(a))),
        op matches Op::PrivateIn(a) ==> op_parts(op) == (109u8, Operands::One(Operand::U32(a))),
        op matches Op::UpdatePrivate(a, b) ==> op_parts(op) == (110u8, Operands::Two(Operand::U32(a), Operand::Upd(b))),
        op is NewObject ==> op_parts(op) == (111u8, Operands::Zero),
        op matches Op::InitProp(a, b) ==> op_parts(op) == (112u8, Operands::Two(Operand::U32(a), Operand::Bool(b))),
        op matches Op::InitPropComputed(a) ==> op_parts(op) == (113u8, Operands::One(Operand::Bool(a))),
        op matches Op::InitMethod(a, b, c) ==> op_parts(op) == (114u8, Operands::Three(Operand::U32(a), Operand::U32(b), Operand::U16(c))),
        op is CopyDataProps ==> op_parts(op) == (115u8, Operands::Zero),
        op is SetProtoLit ==> op_parts(op) == (116u8, Operands::Zero),
        op matches Op::MakeClass(a, b) ==> op_parts(op) == (117u8, Operands::Two(Operand::U32(a), Operand::U32(b))),
        op is Nip ==> op_parts(op) == (118u8, Operands::Zero),
        op matches Op::SuperGet(a) ==> op_parts(op) == (119u8, Operands::One(Operand::U32(a))),
        op is SuperGetElem ==> op_parts(op) == (120u8, Operands::Zero),
        op is SuperBase ==> op_parts(op) == (121u8, Operands::Zero),
        op matches Op::SuperMethod(a, b) ==> op_parts(op) == (122u8, Operands::Two(Operand::U32(a), Operand::Bool(b))),
        op matches Op::SuperMethodElem(a) ==> op_parts(op) == (123u8, Operands::One(Operand::Bool(a))),
        op matches Op::ObjRest(a, b) ==> op_parts(op) == (124u8, Operands::Two(Operand::U32(a), Operand::U16(b))),
        op is NewArrayLit ==> op_parts(op) == (125u8, Operands::Zero),
        op is ArrayAppend ==> op_parts(op) == (126u8, Operands::Zero),
        op is ArrayAppendSpread ==> op_parts(op) == (127u8, Operands::Zero),
        op is ArrayHole ==> op_parts(op) == (128u8, Operands::Zero),
        op matches Op::SwitchLK(a, b) ==> op_parts(op) == (129u8, Operands::Two(Operand::U16(a), Operand::U32(b))),
        op is SuperCtor ==> op_parts(op) == (130u8, Operands::Zero),
        op matches Op::SuperCall(a) ==> op_parts(op) == (131u8, Operands::One(Operand::U16(a))),
        op matches Op::SuperCallSpread(a) ==> op_parts(op) == (132u8, Operands::One(Operand::U16(a))),
        op is DerivedReturn ==> op_parts(op) == (133u8, Operands::Zero),
{
}

/// The numbers and operands of the ops for generators, blocks and async iteration.
pub proof fn lemma_numbers_of_generators_and_blocks(op: Op)
    ensures
        op is InitialYield ==> op_parts(op) == (134u8, Operands::Zero),
        op is Yield ==> op_parts(op) == (135u8, Operands::Zero),
        op matches Op::YieldDelegate(a) ==> op_parts(op) == (136u8, Operands::One(Operand::U16(a))),
        op is LoadCallee ==> op_parts(op) == (137u8, Operands::Zero),
        op matches Op::DefineField(a, b) ==> op_parts(op) == (138u8, Operands::Two(Operand::U32(a), Operand::Bool(b))),
        op matches Op::BlkNew(a, b) ==> op_parts(op) == (139u8, Operands::Two(Operand::U16(a), Operand::U16(b))),
        op matches Op::BlkDecl(a, b, c) ==> op_parts(op) == (140u8, Operands::Three(Operand::U16(a), Operand::U32(b), Operand::Bool(c))),
        op matches Op::BlkCopy(a) ==> op_parts(op) == (141u8, Operands::One(Operand::U16(a))),
        op matches Op::BlkLoad(a, b) ==> op_parts(op) == (142u8, Operands::Two(Operand::U16(a), Operand::U32(b))),
        op matches Op::BlkStore(a, b) ==> op_parts(op) == (143u8, Operands::Two(Operand::U16(a), Operand::U32(b))),
        op matches Op::BlkInit(a, b) ==> op_parts(op) == (144u8, Operands::Two(Operand::U16(a), Operand::U32(b))),
        op matches Op::BlkUpdate(a, b, c) ==> op_parts(op) == (145u8, Operands::Three(Operand::U16(a), Operand::U32(b), Operand::Upd(c))),
        op matches Op::InEnv(a) ==> op_parts(op) == (146u8, Operands::One(Operand::U16(a))),
        op matches Op::TailCall(a, b) ==> op_parts(op) == (147u8, Operands::Two(Operand::U16(a), Operand::Bool(b))),
        op matches Op::ImportCall(a, b) ==> op_parts(op) == (148u8, Operands::Two(Operand::U8(a), Operand::Bool(b))),
        op is GetAsyncIter ==> op_parts(op) == (149u8, Operands::Zero),
        op matches Op::AsyncIterNext(a, b, c) ==> op_parts(op) == (150u8, Operands::Three(Operand::U16(a), Operand::U16(b), Operand::U16(c))),
        op matches Op::AsyncIterResult(a) ==> op_parts(op) == (151u8, Operands::One(Operand::U16(a))),
        op matches Op::AsyncCloseCall(a, b) ==> op_parts(op) == (152u8, Operands::Two(Operand::U16(a), Operand::U16(b))),
        op matches Op::AsyncCloseCheck(a) ==> op_parts(op) == (153u8, Operands::One(Operand::U16(a))),
        op is AsyncDelegateInit ==> op_parts(op) == (154u8, Operands::Zero),
        op matches Op::AsyncDelegateCall(a, b, c) ==> op_parts(op) == (155u8, Operands::Three(Operand::U16(a), Operand::U16(b), Operand::U16(c))),
        op matches Op::AsyncDelegateResult(a, b) ==> op_parts(op) == (156u8, Operands::Two(Operand::U16(a), Operand::U16(b))),
        op matches Op::AsyncDelegateCloseReject(a, b) ==> op_parts(op) == (157u8, Operands::Two(Operand::U16(a), Operand::U16(b))),
        op matches Op::AsyncDelegateSpecial(a, b) ==> op_parts(op) == (158u8, Operands::Two(Operand::U16(a), Operand::Bool(b))),
        op matches Op::NewSpread(a) ==> op_parts(op) == (159u8, Operands::One(Operand::U16(a))),
        op matches Op::IterRestL(a, b) ==> op_parts(op) == (160u8, Operands::Two(Operand::U16(a), Operand::U16(b))),
        op matches Op::TailCallSpread(a, b) ==> op_parts(op) == (161u8, Operands::Two(Operand::U16(a), Operand::Bool(b))),
        op matches Op::ArrayCbGuard(a) ==> op_parts(op) == (162u8, Operands::One(Operand::U8(a))),
        op is ArrayCbHas ==> op_parts(op) == (163u8, Operands::Zero),
        op matches Op::ArrayCbDone(a) ==> op_parts(op) == (164u8, Operands::One(Operand::U32(a))),
        op matches Op::ArgsLen(a, b) ==> op_parts(op) == (165u8, Operands::Two(Operand::U16(a), Operand::U16(b))),
        op matches Op::ArgsGet(a, b) ==> op_parts(op) == (166u8, Operands::Two(Operand::U16(a), Operand::U16(b))),
        op is LoadNewTarget ==> op_parts(op) == (167u8, Operands::Zero),
        op matches Op::Concat(a) ==> op_parts(op) == (168u8, Operands::One(Operand::U16(a))),
{
}

/// An op is written as its number, then its operands in order.
pub proof fn lemma_ops_begin_with_their_number(op: Op)
    ensures
        op_bytes(op).len() >= 1,
        op_bytes(op)[0] == op_parts(op).0,
        op_parts(op).0 <= 168,
        op_parts(op).1 matches Operands::Zero ==> op_bytes(op).len() == 1,
        op_parts(op).1 matches Operands::One(a) ==> op_bytes(op).skip(1) == operand_bytes(a),
        op_parts(op).1 matches Operands::Two(a, b) ==> op_bytes(op).skip(1) == operand_bytes(a)
            + operand_bytes(b),
        op_parts(op).1 matches Operands::Three(a, b, c) ==> op_bytes(op).skip(1) == operand_bytes(a)
            + operand_bytes(b) + operand_bytes(c),
        op_parts(op).1 matches Operands::Four(a, b, c, d) ==> op_bytes(op).skip(1)
            == operand_bytes(a) + operand_bytes(b) + operand_bytes(c) + operand_bytes(d),
{
    let all = op_bytes(op);
    match op_parts(op).1 {
        Operands::Zero => {},
        Operands::One(a) => {
            assert(all.skip(1) =~= operand_bytes(a));
        },
        Operands::Two(a, b) => {
            assert(all.skip(1) =~= operand_bytes(a) + operand_bytes(b));
        },
        Operands::Three(a, b, c) => {
            assert(all.skip(1) =~= operand_bytes(a) + operand_bytes(b) + operand_bytes(c));
        },
        Operands::Four(a, b, c, d) => {
            assert(all.skip(1) =~= operand_bytes(a) + operand_bytes(b) + operand_bytes(c)
                + operand_bytes(d));
        },
    }
}

/// The numbers of the kinds of updates, of `typeof` results, of arithmetic and of comparisons.
pub proof fn lemma_numbers_of_kinds()
    ensures
        upd_tag(UpdKind::PreInc) == 0,
        upd_tag(UpdKind::PreDec) == 1,
        upd_tag(UpdKind::PostInc) == 2,
        upd_tag(UpdKind::PostDec) == 3,
        upd_tag(UpdKind::IncDiscard) == 4,
        upd_tag(UpdKind::DecDiscard) == 5,
        typeof_tag(TypeofKind::Undefined) == 0,
        typeof_tag(TypeofKind::Object) == 1,
        typeof_tag(TypeofKind::Boolean) == 2,
        typeof_tag(TypeofKind::Number) == 3,
        typeof_tag(TypeofKind::BigInt) == 4,
        typeof_tag(TypeofKind::String) == 5,
        typeof_tag(TypeofKind::Symbol) == 6,
        typeof_tag(TypeofKind::Function) == 7,
        arith_tag(ArithKind::Add) == 0,
        arith_tag(ArithKind::Sub) == 1,
        arith_tag(ArithKind::Mul) == 2,
        arith_tag(ArithKind::Div) == 3,
        arith_tag(ArithKind::Mod) == 4,
        arith_tag(ArithKind::BitAnd) == 5,
        arith_tag(ArithKind::BitOr) == 6,
        arith_tag(ArithKind::BitXor) == 7,
        arith_tag(ArithKind::Shl) == 8,
        arith_tag(ArithKind::Shr) == 9,
        arith_tag(ArithKind::UShr) == 10,
        cond_tag(CmpKind::Lt) == 0,
        cond_tag(CmpKind::Gt) == 1,
        cond_tag(CmpKind::Le) == 2,
        cond_tag(CmpKind::Ge) == 3,
        cond_tag(CmpKind::EqEq) == 4,
        cond_tag(CmpKind::NotEq) == 5,
        cond_tag(CmpKind::StrictEq) == 6,
        cond_tag(CmpKind::StrictNotEq) == 7,
{
}

/// A kind is read from its number, and a number that is no kind's is refused by name.
pub proof fn lemma_kinds_are_read_from_their_numbers(
    u: UpdKind,
    t: TypeofKind,
    a: ArithKind,
    c: CmpKind,
    b: bool,
    n: u8,
)
    ensures
        enum_operand(OperandTy::Upd, upd_tag(u)) == Ok::<Operand, DecodeError>(Operand::Upd(u)),
        enum_operand(OperandTy::Typeof, typeof_tag(t)) == Ok::<Operand, DecodeError>(
            Operand::Typeof(t),
        ),
        enum_operand(OperandTy::Arith, arith_tag(a)) == Ok::<Operand, DecodeError>(
            Operand::Arith(a),
        ),
        enum_operand(OperandTy::Cmp, cond_tag(c)) == Ok::<Operand, DecodeError>(Operand::Cmp(c)),
        enum_operand(
            OperandTy::Bool,
            if b {
                1
            } else {
                0
            },
        ) == Ok::<Operand, DecodeError>(Operand::Bool(b)),
        n > 5 ==> enum_operand(OperandTy::Upd, n) == Err::<Operand, DecodeError>(
            DecodeError::BadUpdKind(n),
        ),
        n > 7 ==> enum_operand(OperandTy::Typeof, n) == Err::<Operand, DecodeError>(
            DecodeError::BadTypeofKind(n),
        ),
        n > 10 ==> enum_operand(OperandTy::Arith, n) == Err::<Operand, DecodeError>(
            DecodeError::BadArithKind(n),
        ),
        n > 7 ==> enum_operand(OperandTy::Cmp, n) == Err::<Operand, DecodeError>(
            DecodeError::BadCmpKind(n),
        ),
        n > 1 ==> enum_operand(OperandTy::Bool, n) == Err::<Operand, DecodeError>(
            DecodeError::BadBool(n),
        ),
{
}

} // verus!
