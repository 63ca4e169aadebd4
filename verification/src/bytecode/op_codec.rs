//! The op codec: a tag byte, then the operands (`u32` / `u16` as varints, `u8`, `bool` and the
//! operand enums as one byte).

use super::op::{
    lemma_op_parts, lemma_op_parts_injective, op_parts, operand_tys, tag_tys, ty_of, tys_of, ArithKind,
    CmpKind, Op, Operand, OperandTy, OperandTys, Operands, TypeofKind, UpdKind, OP_COUNT,
};
use super::wire::{
    has_at, lemma_has_at_split, lemma_u8_reads_back, lemma_uv_reads_back, u8_at, uv, uv_at,
    uv_bytes, DecodeError, Rd, Read,
};
use vstd::prelude::*;

verus! {

pub open spec fn upd_tag(k: UpdKind) -> u8 {
    match k {
        UpdKind::PreInc => 0,
        UpdKind::PreDec => 1,
        UpdKind::PostInc => 2,
        UpdKind::PostDec => 3,
        UpdKind::IncDiscard => 4,
        UpdKind::DecDiscard => 5,
    }
}

pub open spec fn typeof_tag(k: TypeofKind) -> u8 {
    match k {
        TypeofKind::Undefined => 0,
        TypeofKind::Object => 1,
        TypeofKind::Boolean => 2,
        TypeofKind::Number => 3,
        TypeofKind::BigInt => 4,
        TypeofKind::String => 5,
        TypeofKind::Symbol => 6,
        TypeofKind::Function => 7,
    }
}

pub open spec fn arith_tag(k: ArithKind) -> u8 {
    match k {
        ArithKind::Add => 0,
        ArithKind::Sub => 1,
        ArithKind::Mul => 2,
        ArithKind::Div => 3,
        ArithKind::Mod => 4,
        ArithKind::BitAnd => 5,
        ArithKind::BitOr => 6,
        ArithKind::BitXor => 7,
        ArithKind::Shl => 8,
        ArithKind::Shr => 9,
        ArithKind::UShr => 10,
    }
}

pub open spec fn cond_tag(k: CmpKind) -> u8 {
    match k {
        CmpKind::Lt => 0,
        CmpKind::Gt => 1,
        CmpKind::Le => 2,
        CmpKind::Ge => 3,
        CmpKind::EqEq => 4,
        CmpKind::NotEq => 5,
        CmpKind::StrictEq => 6,
        CmpKind::StrictNotEq => 7,
    }
}

/// The bytes of one operand.
pub open spec fn operand_bytes(o: Operand) -> Seq<u8> {
    match o {
        Operand::U32(v) => uv_bytes(v as nat),
        Operand::U16(v) => uv_bytes(v as nat),
        Operand::U8(v) => seq![v],
        Operand::Bool(v) => seq![if v { 1u8 } else { 0u8 }],
        Operand::Upd(k) => seq![upd_tag(k)],
        Operand::Typeof(k) => seq![typeof_tag(k)],
        Operand::Arith(k) => seq![arith_tag(k)],
        Operand::Cmp(k) => seq![cond_tag(k)],
    }
}

/// Whether byte `b` is the tag of a value of the enum type `t`, and of which.
pub open spec fn enum_operand(t: OperandTy, b: u8) -> Result<Operand, DecodeError> {
    match t {
        OperandTy::Upd => match b {
            0 => Ok(Operand::Upd(UpdKind::PreInc)),
            1 => Ok(Operand::Upd(UpdKind::PreDec)),
            2 => Ok(Operand::Upd(UpdKind::PostInc)),
            3 => Ok(Operand::Upd(UpdKind::PostDec)),
            4 => Ok(Operand::Upd(UpdKind::IncDiscard)),
            5 => Ok(Operand::Upd(UpdKind::DecDiscard)),
            _ => Err(DecodeError::BadUpdKind(b)),
        },
        OperandTy::Typeof => match b {
            0 => Ok(Operand::Typeof(TypeofKind::Undefined)),
            1 => Ok(Operand::Typeof(TypeofKind::Object)),
            2 => Ok(Operand::Typeof(TypeofKind::Boolean)),
            3 => Ok(Operand::Typeof(TypeofKind::Number)),
            4 => Ok(Operand::Typeof(TypeofKind::BigInt)),
            5 => Ok(Operand::Typeof(TypeofKind::String)),
            6 => Ok(Operand::Typeof(TypeofKind::Symbol)),
            7 => Ok(Operand::Typeof(TypeofKind::Function)),
            _ => Err(DecodeError::BadTypeofKind(b)),
        },
        OperandTy::Arith => match b {
            0 => Ok(Operand::Arith(ArithKind::Add)),
            1 => Ok(Operand::Arith(ArithKind::Sub)),
            2 => Ok(Operand::Arith(ArithKind::Mul)),
            3 => Ok(Operand::Arith(ArithKind::Div)),
            4 => Ok(Operand::Arith(ArithKind::Mod)),
            5 => Ok(Operand::Arith(ArithKind::BitAnd)),
            6 => Ok(Operand::Arith(ArithKind::BitOr)),
            7 => Ok(Operand::Arith(ArithKind::BitXor)),
            8 => Ok(Operand::Arith(ArithKind::Shl)),
            9 => Ok(Operand::Arith(ArithKind::Shr)),
            10 => Ok(Operand::Arith(ArithKind::UShr)),
            _ => Err(DecodeError::BadArithKind(b)),
        },
        OperandTy::Cmp => match b {
            0 => Ok(Operand::Cmp(CmpKind::Lt)),
            1 => Ok(Operand::Cmp(CmpKind::Gt)),
            2 => Ok(Operand::Cmp(CmpKind::Le)),
            3 => Ok(Operand::Cmp(CmpKind::Ge)),
            4 => Ok(Operand::Cmp(CmpKind::EqEq)),
            5 => Ok(Operand::Cmp(CmpKind::NotEq)),
            6 => Ok(Operand::Cmp(CmpKind::StrictEq)),
            7 => Ok(Operand::Cmp(CmpKind::StrictNotEq)),
            _ => Err(DecodeError::BadCmpKind(b)),
        },
        OperandTy::Bool => match b {
            0 => Ok(Operand::Bool(false)),
            1 => Ok(Operand::Bool(true)),
            _ => Err(DecodeError::BadBool(b)),
        },
        _ => Ok(Operand::U8(b)),
    }
}

pub open spec fn u32_at(s: Seq<u8>, pos: int) -> Read<u32> {
    match uv_at(s, pos) {
        Err(e) => Err(e),
        Ok((v, end)) => if v <= u32::MAX {
            Ok((v as u32, end))
        } else {
            Err(DecodeError::U32Range)
        },
    }
}

pub open spec fn u16_at(s: Seq<u8>, pos: int) -> Read<u16> {
    match uv_at(s, pos) {
        Err(e) => Err(e),
        Ok((v, end)) => if v <= u16::MAX {
            Ok((v as u16, end))
        } else {
            Err(DecodeError::U16Range)
        },
    }
}

/// Reading an operand of type `t`.
pub open spec fn operand_at(s: Seq<u8>, pos: int, t: OperandTy) -> Read<Operand> {
    match t {
        OperandTy::U32 => match u32_at(s, pos) {
            Err(e) => Err(e),
            Ok((v, end)) => Ok((Operand::U32(v), end)),
        },
        OperandTy::U16 => match u16_at(s, pos) {
            Err(e) => Err(e),
            Ok((v, end)) => Ok((Operand::U16(v), end)),
        },
        _ => match u8_at(s, pos) {
            Err(e) => Err(e),
            Ok((b, end)) => match enum_operand(t, b) {
                Err(e) => Err(e),
                Ok(o) => Ok((o, end)),
            },
        },
    }
}

pub open spec fn operands_bytes(o: Operands) -> Seq<u8> {
    match o {
        Operands::Zero => seq![],
        Operands::One(a) => operand_bytes(a),
        Operands::Two(a, b) => operand_bytes(a) + operand_bytes(b),
        Operands::Three(a, b, c) => operand_bytes(a) + operand_bytes(b) + operand_bytes(c),
        Operands::Four(a, b, c, d) => operand_bytes(a) + operand_bytes(b) + operand_bytes(c)
            + operand_bytes(d),
    }
}

/// Reading operands of types `t`, in order.
pub open spec fn operands_at(s: Seq<u8>, pos: int, t: OperandTys) -> Read<Operands> {
    match t {
        OperandTys::Zero => Ok((Operands::Zero, pos)),
        OperandTys::One(t1) => match operand_at(s, pos, t1) {
            Err(e) => Err(e),
            Ok((a, p)) => Ok((Operands::One(a), p)),
        },
        OperandTys::Two(t1, t2) => match operand_at(s, pos, t1) {
            Err(e) => Err(e),
            Ok((a, p)) => match operand_at(s, p, t2) {
                Err(e) => Err(e),
                Ok((b, p)) => Ok((Operands::Two(a, b), p)),
            },
        },
        OperandTys::Three(t1, t2, t3) => match operand_at(s, pos, t1) {
            Err(e) => Err(e),
            Ok((a, p)) => match operand_at(s, p, t2) {
                Err(e) => Err(e),
                Ok((b, p)) => match operand_at(s, p, t3) {
                    Err(e) => Err(e),
                    Ok((c, p)) => Ok((Operands::Three(a, b, c), p)),
                },
            },
        },
        OperandTys::Four(t1, t2, t3, t4) => match operand_at(s, pos, t1) {
            Err(e) => Err(e),
            Ok((a, p)) => match operand_at(s, p, t2) {
                Err(e) => Err(e),
                Ok((b, p)) => match operand_at(s, p, t3) {
                    Err(e) => Err(e),
                    Ok((c, p)) => match operand_at(s, p, t4) {
                        Err(e) => Err(e),
                        Ok((d, p)) => Ok((Operands::Four(a, b, c, d), p)),
                    },
                },
            },
        },
    }
}

/// The bytes of one op.
pub open spec fn op_bytes(op: Op) -> Seq<u8> {
    seq![op_parts(op).0] + operands_bytes(op_parts(op).1)
}

/// Reading an op's tag and operands.
pub open spec fn op_parts_at(s: Seq<u8>, pos: int) -> Read<(u8, Operands)> {
    match u8_at(s, pos) {
        Err(e) => Err(e),
        Ok((tag, p)) => if tag >= OP_COUNT {
            Err(DecodeError::BadOpTag(tag))
        } else {
            match operands_at(s, p, tag_tys(tag)) {
                Err(e) => Err(e),
                Ok((o, end)) => Ok(((tag, o), end)),
            }
        },
    }
}

/// Reading an op: the one op with the parts that stand there.
pub open spec fn op_at(s: Seq<u8>, pos: int) -> Read<Op> {
    match op_parts_at(s, pos) {
        Err(e) => Err(e),
        Ok((parts, end)) => Ok((choose|op: Op| op_parts(op) == parts, end)),
    }
}

proof fn lemma_operand_reads_back(s: Seq<u8>, pos: int, o: Operand)
    requires
        has_at(s, pos, operand_bytes(o)),
    ensures
        operand_at(s, pos, ty_of(o)) == Ok::<(Operand, int), DecodeError>(
            (o, pos + operand_bytes(o).len()),
        ),
{
    match o {
        Operand::U32(v) => {
            lemma_uv_reads_back(s, pos, v as u64);
        },
        Operand::U16(v) => {
            lemma_uv_reads_back(s, pos, v as u64);
        },
        Operand::U8(v) => {
            lemma_u8_reads_back(s, pos, v);
        },
        Operand::Bool(v) => {
            lemma_u8_reads_back(s, pos, if v { 1u8 } else { 0u8 });
        },
        Operand::Upd(k) => {
            lemma_u8_reads_back(s, pos, upd_tag(k));
        },
        Operand::Typeof(k) => {
            lemma_u8_reads_back(s, pos, typeof_tag(k));
        },
        Operand::Arith(k) => {
            lemma_u8_reads_back(s, pos, arith_tag(k));
        },
        Operand::Cmp(k) => {
            lemma_u8_reads_back(s, pos, cond_tag(k));
        },
    }
}

proof fn lemma_operands_read_back(s: Seq<u8>, pos: int, o: Operands)
    requires
        has_at(s, pos, operands_bytes(o)),
    ensures
        operands_at(s, pos, tys_of(o)) == Ok::<(Operands, int), DecodeError>(
            (o, pos + operands_bytes(o).len()),
        ),
{
    match o {
        Operands::Zero => {},
        Operands::One(a) => {
            lemma_operand_reads_back(s, pos, a);
        },
        Operands::Two(a, b) => {
            lemma_has_at_split(s, pos, operand_bytes(a), operand_bytes(b));
            lemma_operand_reads_back(s, pos, a);
            lemma_operand_reads_back(s, pos + operand_bytes(a).len(), b);
        },
        Operands::Three(a, b, c) => {
            let ab = operand_bytes(a) + operand_bytes(b);
            lemma_has_at_split(s, pos, ab, operand_bytes(c));
            lemma_has_at_split(s, pos, operand_bytes(a), operand_bytes(b));
            lemma_operand_reads_back(s, pos, a);
            lemma_operand_reads_back(s, pos + operand_bytes(a).len(), b);
            lemma_operand_reads_back(s, pos + ab.len(), c);
        },
        Operands::Four(a, b, c, d) => {
            let ab = operand_bytes(a) + operand_bytes(b);
            let abc = ab + operand_bytes(c);
            lemma_has_at_split(s, pos, abc, operand_bytes(d));
            lemma_has_at_split(s, pos, ab, operand_bytes(c));
            lemma_has_at_split(s, pos, operand_bytes(a), operand_bytes(b));
            lemma_operand_reads_back(s, pos, a);
            lemma_operand_reads_back(s, pos + operand_bytes(a).len(), b);
            lemma_operand_reads_back(s, pos + ab.len(), c);
            lemma_operand_reads_back(s, pos + abc.len(), d);
        },
    }
}

/// Reading the bytes of an op gives the op back.
pub proof fn lemma_op_reads_back(s: Seq<u8>, pos: int, op: Op)
    requires
        has_at(s, pos, op_bytes(op)),
    ensures
        op_at(s, pos) == Ok::<(Op, int), DecodeError>((op, pos + op_bytes(op).len())),
{
    let (tag, o) = op_parts(op);
    lemma_op_parts(op);
    lemma_has_at_split(s, pos, seq![tag], operands_bytes(o));
    lemma_u8_reads_back(s, pos, tag);
    lemma_operands_read_back(s, pos + 1, o);
    let got = choose|x: Op| op_parts(x) == op_parts(op);
    lemma_op_parts_injective(got, op);
}

proof fn lemma_operand_at_bounds(s: Seq<u8>, pos: int, t: OperandTy)
    requires
        0 <= pos,
    ensures
        operand_at(s, pos, t) matches Ok((o, end)) ==> pos < end <= s.len() && ty_of(o) == t,
{
    super::wire::lemma_uv_rest_bounds(s, pos, 0);
}

impl<'a> Rd<'a> {
    pub fn u32(&mut self) -> (r: Result<u32, DecodeError>)
        requires
            old(self).wf(),
        ensures
            final(self).moved(old(self), r, u32_at(old(self).b@, old(self).pos as int)),
    {
        let v: u64 = self.uv()?;
        if v <= u32::MAX as u64 {
            Ok(v as u32)
        } else {
            Err(DecodeError::U32Range)
        }
    }

    pub fn u16(&mut self) -> (r: Result<u16, DecodeError>)
        requires
            old(self).wf(),
        ensures
            final(self).moved(old(self), r, u16_at(old(self).b@, old(self).pos as int)),
    {
        let v: u64 = self.uv()?;
        if v <= u16::MAX as u64 {
            Ok(v as u16)
        } else {
            Err(DecodeError::U16Range)
        }
    }
}

/// Appends one operand.
fn put(w: &mut Vec<u8>, o: Operand)
    ensures
        final(w)@ == old(w)@ + operand_bytes(o),
{
    let tag: u8 = match o {
        Operand::U32(v) => {
            uv(w, v as u64);
            return ;
        },
        Operand::U16(v) => {
            uv(w, v as u64);
            return ;
        },
        Operand::U8(v) => v,
        Operand::Bool(v) => if v { 1 } else { 0 },
        Operand::Upd(k) => match k {
            UpdKind::PreInc => 0,
            UpdKind::PreDec => 1,
            UpdKind::PostInc => 2,
            UpdKind::PostDec => 3,
            UpdKind::IncDiscard => 4,
            UpdKind::DecDiscard => 5,
        },
        Operand::Typeof(k) => match k {
            TypeofKind::Undefined => 0,
            TypeofKind::Object => 1,
            TypeofKind::Boolean => 2,
            TypeofKind::Number => 3,
            TypeofKind::BigInt => 4,
            TypeofKind::String => 5,
            TypeofKind::Symbol => 6,
            TypeofKind::Function => 7,
        },
        Operand::Arith(k) => match k {
            ArithKind::Add => 0,
            ArithKind::Sub => 1,
            ArithKind::Mul => 2,
            ArithKind::Div => 3,
            ArithKind::Mod => 4,
            ArithKind::BitAnd => 5,
            ArithKind::BitOr => 6,
            ArithKind::BitXor => 7,
            ArithKind::Shl => 8,
            ArithKind::Shr => 9,
            ArithKind::UShr => 10,
        },
        Operand::Cmp(k) => match k {
            CmpKind::Lt => 0,
            CmpKind::Gt => 1,
            CmpKind::Le => 2,
            CmpKind::Ge => 3,
            CmpKind::EqEq => 4,
            CmpKind::NotEq => 5,
            CmpKind::StrictEq => 6,
            CmpKind::StrictNotEq => 7,
        },
    };
    w.push(tag);
    assert(old(w)@ + seq![tag] =~= w@);
}

/// Reads one operand of type `t`.
fn get(r: &mut Rd, t: OperandTy) -> (res: Result<Operand, DecodeError>)
    requires
        old(r).wf(),
    ensures
        final(r).moved(old(r), res, operand_at(old(r).b@, old(r).pos as int, t)),
        res matches Ok(o) ==> ty_of(o) == t && final(r).pos > old(r).pos,
{
    proof {
        lemma_operand_at_bounds(r.b@, r.pos as int, t);
    }
    match t {
        OperandTy::U32 => {
            let v: u32 = r.u32()?;
            return Ok(Operand::U32(v));
        },
        OperandTy::U16 => {
            let v: u16 = r.u16()?;
            return Ok(Operand::U16(v));
        },
        _ => {},
    }
    let b: u8 = r.u8()?;
    match t {
        OperandTy::Upd => match b {
            0 => Ok(Operand::Upd(UpdKind::PreInc)),
            1 => Ok(Operand::Upd(UpdKind::PreDec)),
            2 => Ok(Operand::Upd(UpdKind::PostInc)),
            3 => Ok(Operand::Upd(UpdKind::PostDec)),
            4 => Ok(Operand::Upd(UpdKind::IncDiscard)),
            5 => Ok(Operand::Upd(UpdKind::DecDiscard)),
            _ => Err(DecodeError::BadUpdKind(b)),
        },
        OperandTy::Typeof => match b {
            0 => Ok(Operand::Typeof(TypeofKind::Undefined)),
            1 => Ok(Operand::Typeof(TypeofKind::Object)),
            2 => Ok(Operand::Typeof(TypeofKind::Boolean)),
            3 => Ok(Operand::Typeof(TypeofKind::Number)),
            4 => Ok(Operand::Typeof(TypeofKind::BigInt)),
            5 => Ok(Operand::Typeof(TypeofKind::String)),
            6 => Ok(Operand::Typeof(TypeofKind::Symbol)),
            7 => Ok(Operand::Typeof(TypeofKind::Function)),
            _ => Err(DecodeError::BadTypeofKind(b)),
        },
        OperandTy::Arith => match b {
            0 => Ok(Operand::Arith(ArithKind::Add)),
            1 => Ok(Operand::Arith(ArithKind::Sub)),
            2 => Ok(Operand::Arith(ArithKind::Mul)),
            3 => Ok(Operand::Arith(ArithKind::Div)),
            4 => Ok(Operand::Arith(ArithKind::Mod)),
            5 => Ok(Operand::Arith(ArithKind::BitAnd)),
            6 => Ok(Operand::Arith(ArithKind::BitOr)),
            7 => Ok(Operand::Arith(ArithKind::BitXor)),
            8 => Ok(Operand::Arith(ArithKind::Shl)),
            9 => Ok(Operand::Arith(ArithKind::Shr)),
            10 => Ok(Operand::Arith(ArithKind::UShr)),
            _ => Err(DecodeError::BadArithKind(b)),
        },
        OperandTy::Cmp => match b {
            0 => Ok(Operand::Cmp(CmpKind::Lt)),
            1 => Ok(Operand::Cmp(CmpKind::Gt)),
            2 => Ok(Operand::Cmp(CmpKind::Le)),
            3 => Ok(Operand::Cmp(CmpKind::Ge)),
            4 => Ok(Operand::Cmp(CmpKind::EqEq)),
            5 => Ok(Operand::Cmp(CmpKind::NotEq)),
            6 => Ok(Operand::Cmp(CmpKind::StrictEq)),
            7 => Ok(Operand::Cmp(CmpKind::StrictNotEq)),
            _ => Err(DecodeError::BadCmpKind(b)),
        },
        OperandTy::Bool => match b {
            0 => Ok(Operand::Bool(false)),
            1 => Ok(Operand::Bool(true)),
            _ => Err(DecodeError::BadBool(b)),
        },
        _ => Ok(Operand::U8(b)),
    }
}

/// Appends one op.
pub fn enc_op(w: &mut Vec<u8>, op: Op)
    ensures
        final(w)@ == old(w)@ + op_bytes(op),
{
    let (tag, o) = op.parts();
    w.push(tag);
    match o {
        Operands::Zero => {},
        Operands::One(a) => {
            put(w, a);
        },
        Operands::Two(a, b) => {
            put(w, a);
            put(w, b);
        },
        Operands::Three(a, b, c) => {
            put(w, a);
            put(w, b);
            put(w, c);
        },
        Operands::Four(a, b, c, d) => {
            put(w, a);
            put(w, b);
            put(w, c);
            put(w, d);
        },
    }
    assert(w@ =~= old(w)@ + (seq![tag] + operands_bytes(o)));
}

/// Reads one op.
pub fn dec_op(r: &mut Rd) -> (res: Result<Op, DecodeError>)
    requires
        old(r).wf(),
    ensures
        final(r).moved(old(r), res, op_at(old(r).b@, old(r).pos as int)),
        res is Ok ==> final(r).pos > old(r).pos,
{
    let tag: u8 = r.u8()?;
    if tag >= OP_COUNT {
        return Err(DecodeError::BadOpTag(tag));
    }
    let ghost start = r.pos as int;
    let o: Operands = match operand_tys(tag) {
        OperandTys::Zero => Operands::Zero,
        OperandTys::One(t1) => {
            let a: Operand = get(r, t1)?;
            Operands::One(a)
        },
        OperandTys::Two(t1, t2) => {
            let a: Operand = get(r, t1)?;
            let b: Operand = get(r, t2)?;
            Operands::Two(a, b)
        },
        OperandTys::Three(t1, t2, t3) => {
            let a: Operand = get(r, t1)?;
            let b: Operand = get(r, t2)?;
            let c: Operand = get(r, t3)?;
            Operands::Three(a, b, c)
        },
        OperandTys::Four(t1, t2, t3, t4) => {
            let a: Operand = get(r, t1)?;
            let b: Operand = get(r, t2)?;
            let c: Operand = get(r, t3)?;
            let d: Operand = get(r, t4)?;
            Operands::Four(a, b, c, d)
        },
    };
    let op: Op = Op::from_parts(tag, o);
    proof {
        let got = choose|x: Op| op_parts(x) == op_parts(op);
        lemma_op_parts_injective(got, op);
    }
    Ok(op)
}

} // verus!
