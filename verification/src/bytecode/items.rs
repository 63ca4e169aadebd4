//! The items of an encoded chunk: ops, constants, names, slots, inner functions and capture
//! seeds.

use super::chunk::{CapInit, CapInitView, FnId};
use super::list_codec::{EncodeError, Tables, TablesView, Wire};
use super::op::Op;
use super::op_codec::{dec_op, enc_op, lemma_op_reads_back, op_at, op_bytes, u16_at};
use super::strings::{add_strs, lemma_str_index_stable, str_index, Strings};
use super::unit_index::{lemma_unit_index, unit_index, UnitIndex};
use super::wire::{
    bytes_at, has_at, lemma_has_at_split, lemma_u8_reads_back, lemma_uv_bytes_len, lemma_uv_reads_back,
    u8_at, uv, uv_at, uv_bytes, DecodeError, Rd, Read,
};
use crate::value::{
    hex_magnitude, lemma_hex_magnitude_canonical, parse_hex, BigInt, BigIntView, Value, ValueView,
};
use vstd::bytes::{
    lemma_auto_spec_u64_to_from_le_bytes, spec_u64_from_le_bytes, spec_u64_to_le_bytes, u64_from_le_bytes,
    u64_to_le_bytes,
};
use vstd::prelude::*;

verus! {

// ---- ops ------------------------------------------------------------------------------------

impl Wire for Op {
    open spec fn carried(v: Op, unit: Seq<FnId>) -> bool {
        true
    }

    open spec fn refusal() -> EncodeError {
        EncodeError::Constant
    }

    open spec fn canonical(v: Op) -> bool {
        true
    }

    open spec fn strs(v: Op) -> Seq<Seq<char>> {
        Seq::empty()
    }

    open spec fn bytes(v: Op, unit: Seq<FnId>, table: Seq<Seq<char>>) -> Seq<u8> {
        op_bytes(v)
    }

    open spec fn at(s: Seq<u8>, pos: int, t: TablesView) -> Read<Op> {
        op_at(s, pos)
    }

    proof fn lemma_nonempty(v: Op, unit: Seq<FnId>, table: Seq<Seq<char>>) {
    }

    proof fn lemma_stable(v: Op, unit: Seq<FnId>, a: Seq<Seq<char>>, b: Seq<Seq<char>>) {
    }

    proof fn lemma_reads_back(
        s: Seq<u8>,
        pos: int,
        t: TablesView,
        v: Op,
        unit: Seq<FnId>,
        table: Seq<Seq<char>>,
    ) {
        lemma_op_reads_back(s, pos, v);
    }

    fn write(&self, out: &mut Vec<u8>, strings: &mut Strings, unit: &UnitIndex) -> (r: Result<
        (),
        EncodeError,
    >) {
        enc_op(out, *self);
        Ok(())
    }

    fn read(r: &mut Rd, t: &Tables) -> (res: Result<Op, DecodeError>) {
        dec_op(r)
    }
}

// ---- strings --------------------------------------------------------------------------------

/// Reading a string: a varint index into the table.
pub open spec fn str_at(s: Seq<u8>, pos: int, strings: Seq<Seq<char>>) -> Read<Seq<char>> {
    match uv_at(s, pos) {
        Err(e) => Err(e),
        Ok((i, end)) => if i < strings.len() {
            Ok((strings[i as int], end))
        } else {
            Err(DecodeError::BadString)
        },
    }
}

/// The bytes of a string: its index.
pub open spec fn str_bytes(v: Seq<char>, table: Seq<Seq<char>>) -> Seq<u8> {
    uv_bytes(str_index(table, v))
}

pub proof fn lemma_str_reads_back(s: Seq<u8>, pos: int, v: Seq<char>, table: Seq<Seq<char>>)
    requires
        table.contains(v),
        table.no_duplicates(),
        table.len() <= u64::MAX,
        has_at(s, pos, str_bytes(v, table)),
    ensures
        str_at(s, pos, table) == Ok::<(Seq<char>, int), DecodeError>(
            (v, pos + str_bytes(v, table).len()),
        ),
{
    let i = table.index_of(v);
    assert(0 <= i < table.len() && table[i] == v);
    lemma_uv_reads_back(s, pos, i as u64);
}

fn write_str(out: &mut Vec<u8>, strings: &mut Strings, v: &str)
    requires
        old(strings).wf(),
    ensures
        final(strings).wf(),
        final(strings)@ == add_strs(old(strings)@, seq![v@]),
        final(out)@ == old(out)@ + str_bytes(v@, final(strings)@),
{
    proof {
        reveal_with_fuel(add_strs, 2);
        assert(seq![v@].drop_last() =~= Seq::empty());
    }
    let i: usize = strings.idx(v);
    uv(out, i as u64);
}

fn read_str<'b>(r: &mut Rd, strings: &'b Vec<String>) -> (res: Result<&'b str, DecodeError>)
    requires
        old(r).wf(),
    ensures
        final(r).b@ == old(r).b@,
        final(r).wf(),
        match (res, str_at(old(r).b@, old(r).pos as int, strings.deep_view())) {
            (Ok(v), Ok((w, end))) => v@ == w && final(r).pos == end,
            (Err(e), Err(f)) => e == f,
            _ => false,
        },
{
    let i: u64 = r.uv()?;
    if i < strings.len() as u64 {
        Ok(strings[i as usize].as_str())
    } else {
        Err(DecodeError::BadString)
    }
}

impl Wire for String {
    open spec fn carried(v: Seq<char>, unit: Seq<FnId>) -> bool {
        true
    }

    open spec fn refusal() -> EncodeError {
        EncodeError::Constant
    }

    open spec fn canonical(v: Seq<char>) -> bool {
        true
    }

    open spec fn strs(v: Seq<char>) -> Seq<Seq<char>> {
        seq![v]
    }

    open spec fn bytes(v: Seq<char>, unit: Seq<FnId>, table: Seq<Seq<char>>) -> Seq<u8> {
        str_bytes(v, table)
    }

    open spec fn at(s: Seq<u8>, pos: int, t: TablesView) -> Read<Seq<char>> {
        str_at(s, pos, t.strings)
    }

    proof fn lemma_nonempty(v: Seq<char>, unit: Seq<FnId>, table: Seq<Seq<char>>) {
        lemma_uv_bytes_len(str_index(table, v));
    }

    proof fn lemma_stable(v: Seq<char>, unit: Seq<FnId>, a: Seq<Seq<char>>, b: Seq<Seq<char>>) {
        assert(seq![v][0] == v);
        lemma_str_index_stable(a, b, v);
    }

    proof fn lemma_reads_back(
        s: Seq<u8>,
        pos: int,
        t: TablesView,
        v: Seq<char>,
        unit: Seq<FnId>,
        table: Seq<Seq<char>>,
    ) {
        assert(seq![v][0] == v);
        lemma_str_reads_back(s, pos, v, table);
    }

    fn write(&self, out: &mut Vec<u8>, strings: &mut Strings, unit: &UnitIndex) -> (r: Result<
        (),
        EncodeError,
    >) {
        write_str(out, strings, self.as_str());
        Ok(())
    }

    fn read(r: &mut Rd, t: &Tables) -> (res: Result<String, DecodeError>) {
        let s: &str = read_str(r, t.strings)?;
        Ok(s.to_owned())
    }
}

// ---- slots ----------------------------------------------------------------------------------

impl Wire for u16 {
    open spec fn carried(v: u16, unit: Seq<FnId>) -> bool {
        true
    }

    open spec fn refusal() -> EncodeError {
        EncodeError::Constant
    }

    open spec fn canonical(v: u16) -> bool {
        true
    }

    open spec fn strs(v: u16) -> Seq<Seq<char>> {
        Seq::empty()
    }

    open spec fn bytes(v: u16, unit: Seq<FnId>, table: Seq<Seq<char>>) -> Seq<u8> {
        uv_bytes(v as nat)
    }

    open spec fn at(s: Seq<u8>, pos: int, t: TablesView) -> Read<u16> {
        u16_at(s, pos)
    }

    proof fn lemma_nonempty(v: u16, unit: Seq<FnId>, table: Seq<Seq<char>>) {
        lemma_uv_bytes_len(v as nat);
    }

    proof fn lemma_stable(v: u16, unit: Seq<FnId>, a: Seq<Seq<char>>, b: Seq<Seq<char>>) {
    }

    proof fn lemma_reads_back(
        s: Seq<u8>,
        pos: int,
        t: TablesView,
        v: u16,
        unit: Seq<FnId>,
        table: Seq<Seq<char>>,
    ) {
        lemma_uv_reads_back(s, pos, v as u64);
    }

    fn write(&self, out: &mut Vec<u8>, strings: &mut Strings, unit: &UnitIndex) -> (r: Result<
        (),
        EncodeError,
    >) {
        uv(out, *self as u64);
        Ok(())
    }

    fn read(r: &mut Rd, t: &Tables) -> (res: Result<u16, DecodeError>) {
        r.u16()
    }
}

// ---- inner functions ------------------------------------------------------------------------

impl Wire for FnId {
    open spec fn carried(v: FnId, unit: Seq<FnId>) -> bool {
        unit_index(unit, v) is Some
    }

    open spec fn refusal() -> EncodeError {
        EncodeError::Function
    }

    open spec fn canonical(v: FnId) -> bool {
        true
    }

    open spec fn strs(v: FnId) -> Seq<Seq<char>> {
        Seq::empty()
    }

    open spec fn bytes(v: FnId, unit: Seq<FnId>, table: Seq<Seq<char>>) -> Seq<u8> {
        uv_bytes(unit_index(unit, v)->0 as nat)
    }

    open spec fn at(s: Seq<u8>, pos: int, t: TablesView) -> Read<FnId> {
        match uv_at(s, pos) {
            Err(e) => Err(e),
            Ok((i, end)) => if i < t.funcs.len() && t.funcs[i as int] is Some {
                Ok((t.funcs[i as int]->0, end))
            } else {
                Err(DecodeError::BadFunction)
            },
        }
    }

    proof fn lemma_nonempty(v: FnId, unit: Seq<FnId>, table: Seq<Seq<char>>) {
        lemma_uv_bytes_len(unit_index(unit, v)->0 as nat);
    }

    proof fn lemma_stable(v: FnId, unit: Seq<FnId>, a: Seq<Seq<char>>, b: Seq<Seq<char>>) {
    }

    proof fn lemma_reads_back(
        s: Seq<u8>,
        pos: int,
        t: TablesView,
        v: FnId,
        unit: Seq<FnId>,
        table: Seq<Seq<char>>,
    ) {
        lemma_unit_index(unit, v);
        let i = unit_index(unit, v)->0;
        lemma_uv_reads_back(s, pos, i as u64);
        assert(t.funcs[i] == Some(unit[i]));
    }

    fn write(&self, out: &mut Vec<u8>, strings: &mut Strings, unit: &UnitIndex) -> (r: Result<
        (),
        EncodeError,
    >) {
        match unit.index(*self) {
            Some(i) => {
                uv(out, i as u64);
                Ok(())
            },
            None => Err(EncodeError::Function),
        }
    }

    fn read(r: &mut Rd, t: &Tables) -> (res: Result<FnId, DecodeError>) {
        let i: u64 = r.uv()?;
        if i < t.funcs.len() as u64 {
            match t.funcs[i as usize] {
                Some(f) => Ok(f),
                None => Err(DecodeError::BadFunction),
            }
        } else {
            Err(DecodeError::BadFunction)
        }
    }
}

// ---- constants ------------------------------------------------------------------------------

/// The magnitude `hex` with a sign (zero has none).
pub open spec fn signed(negative: bool, hex: Seq<char>) -> BigIntView {
    BigIntView { negative: negative && hex != seq!['0'], hex }
}

/// Reading a constant whose tag is read.
pub open spec fn const_body_at(tag: u8, s: Seq<u8>, pos: int, t: TablesView) -> Read<ValueView> {
    match tag {
        0 => Ok((ValueView::Undefined, pos)),
        1 => Ok((ValueView::Null, pos)),
        2 => Ok((ValueView::Bool(false), pos)),
        3 => Ok((ValueView::Bool(true), pos)),
        4 => match bytes_at(s, pos, 8) {
            Err(e) => Err(e),
            Ok((b, end)) => Ok((ValueView::Num(spec_u64_from_le_bytes(b)), end)),
        },
        5 => match str_at(s, pos, t.strings) {
            Err(e) => Err(e),
            Ok((v, end)) => Ok((ValueView::Str(v), end)),
        },
        6 => match u8_at(s, pos) {
            Err(e) => Err(e),
            Ok((neg, p)) => match str_at(s, p, t.strings) {
                Err(e) => Err(e),
                Ok((v, end)) => match hex_magnitude(v) {
                    None => Err(DecodeError::BadBigInt),
                    Some(hex) => Ok((ValueView::BigInt(signed(neg != 0, hex)), end)),
                },
            },
        },
        _ => Err(DecodeError::BadConstTag(tag)),
    }
}

impl Wire for Value {
    open spec fn carried(v: ValueView, unit: Seq<FnId>) -> bool {
        !(v is Empty || v is Sym || v is Obj)
    }

    open spec fn refusal() -> EncodeError {
        EncodeError::Constant
    }

    open spec fn canonical(v: ValueView) -> bool {
        v matches ValueView::BigInt(b) ==> b.wf()
    }

    open spec fn strs(v: ValueView) -> Seq<Seq<char>> {
        match v {
            ValueView::Str(s) => seq![s],
            ValueView::BigInt(b) => seq![b.hex],
            _ => Seq::empty(),
        }
    }

    open spec fn bytes(v: ValueView, unit: Seq<FnId>, table: Seq<Seq<char>>) -> Seq<u8> {
        match v {
            ValueView::Undefined => seq![0u8],
            ValueView::Null => seq![1u8],
            ValueView::Bool(false) => seq![2u8],
            ValueView::Bool(true) => seq![3u8],
            ValueView::Num(n) => seq![4u8] + spec_u64_to_le_bytes(n),
            ValueView::Str(s) => seq![5u8] + str_bytes(s, table),
            ValueView::BigInt(b) => seq![6u8] + seq![if b.negative { 1u8 } else { 0u8 }]
                + str_bytes(b.hex, table),
            _ => seq![0u8],
        }
    }

    open spec fn at(s: Seq<u8>, pos: int, t: TablesView) -> Read<ValueView> {
        match u8_at(s, pos) {
            Err(e) => Err(e),
            Ok((tag, p)) => const_body_at(tag, s, p, t),
        }
    }

    proof fn lemma_nonempty(v: ValueView, unit: Seq<FnId>, table: Seq<Seq<char>>) {
    }

    proof fn lemma_stable(v: ValueView, unit: Seq<FnId>, a: Seq<Seq<char>>, b: Seq<Seq<char>>) {
        match v {
            ValueView::Str(s) => {
                assert(Self::strs(v)[0] == s);
                lemma_str_index_stable(a, b, s);
            },
            ValueView::BigInt(n) => {
                assert(Self::strs(v)[0] == n.hex);
                lemma_str_index_stable(a, b, n.hex);
            },
            _ => {},
        }
    }

    proof fn lemma_reads_back(
        s: Seq<u8>,
        pos: int,
        t: TablesView,
        v: ValueView,
        unit: Seq<FnId>,
        table: Seq<Seq<char>>,
    ) {
        match v {
            ValueView::Undefined => lemma_u8_reads_back(s, pos, 0),
            ValueView::Null => lemma_u8_reads_back(s, pos, 1),
            ValueView::Bool(b) => lemma_u8_reads_back(s, pos, if b { 3u8 } else { 2u8 }),
            ValueView::Num(n) => {
                lemma_auto_spec_u64_to_from_le_bytes();
                lemma_has_at_split(s, pos, seq![4u8], spec_u64_to_le_bytes(n));
                lemma_u8_reads_back(s, pos, 4);
            },
            ValueView::Str(x) => {
                assert(Self::strs(v)[0] == x);
                lemma_has_at_split(s, pos, seq![5u8], str_bytes(x, table));
                lemma_u8_reads_back(s, pos, 5);
                lemma_str_reads_back(s, pos + 1, x, table);
            },
            ValueView::BigInt(b) => {
                assert(Self::strs(v)[0] == b.hex);
                let sign = if b.negative { 1u8 } else { 0u8 };
                lemma_has_at_split(s, pos, seq![6u8] + seq![sign], str_bytes(b.hex, table));
                lemma_has_at_split(s, pos, seq![6u8], seq![sign]);
                lemma_u8_reads_back(s, pos, 6);
                lemma_u8_reads_back(s, pos + 1, sign);
                lemma_str_reads_back(s, pos + 2, b.hex, table);
                lemma_hex_magnitude_canonical(b.hex);
            },
            _ => {},
        }
    }

    fn write(&self, out: &mut Vec<u8>, strings: &mut Strings, unit: &UnitIndex) -> (r: Result<
        (),
        EncodeError,
    >) {
        let ghost o0 = out@;
        match self {
            Value::Undefined => {
                out.push(0);
                assert(out@ =~= o0 + seq![0u8]);
            },
            Value::Null => {
                out.push(1);
                assert(out@ =~= o0 + seq![1u8]);
            },
            Value::Bool(b) => {
                out.push(if *b { 3 } else { 2 });
                assert(out@ =~= o0 + seq![if *b { 3u8 } else { 2u8 }]);
            },
            Value::Num(n) => {
                out.push(4);
                let mut b: Vec<u8> = u64_to_le_bytes(*n);
                out.append(&mut b);
                assert(out@ =~= o0 + (seq![4u8] + spec_u64_to_le_bytes(*n)));
            },
            Value::Str(s) => {
                out.push(5);
                write_str(out, strings, s.as_str());
                assert(out@ =~= o0 + (seq![5u8] + str_bytes(s@, strings@)));
            },
            Value::BigInt(b) => {
                out.push(6);
                out.push(if b.negative { 1 } else { 0 });
                write_str(out, strings, b.hex.as_str());
                assert(out@ =~= o0 + (seq![6u8] + seq![if b.negative { 1u8 } else { 0u8 }] + str_bytes(
                    b.hex@,
                    strings@,
                )));
            },
            _ => {
                return Err(EncodeError::Constant);
            },
        }
        Ok(())
    }

    fn read(r: &mut Rd, t: &Tables) -> (res: Result<Value, DecodeError>) {
        let tag: u8 = r.u8()?;
        match tag {
            0 => Ok(Value::Undefined),
            1 => Ok(Value::Null),
            2 => Ok(Value::Bool(false)),
            3 => Ok(Value::Bool(true)),
            4 => {
                let b: &[u8] = r.bytes(8)?;
                Ok(Value::Num(u64_from_le_bytes(b)))
            },
            5 => {
                let s: &str = read_str(r, t.strings)?;
                Ok(Value::Str(s.to_owned()))
            },
            6 => {
                let neg: bool = r.u8()? != 0;
                let s: &str = read_str(r, t.strings)?;
                match parse_hex(s) {
                    None => Err(DecodeError::BadBigInt),
                    Some(hex) => {
                        let zero: bool = crate::text::same(hex.as_str(), "0");
                        proof {
                            reveal_strlit("0");
                            assert("0"@ =~= seq!['0']);
                        }
                        Ok(Value::BigInt(BigInt { negative: neg && !zero, hex }))
                    },
                }
            },
            _ => Err(DecodeError::BadConstTag(tag)),
        }
    }
}

// ---- capture seeds --------------------------------------------------------------------------

/// Reading a capture seed whose tag is read.
pub open spec fn cap_body_at(tag: u8, s: Seq<u8>, pos: int, t: TablesView) -> Read<CapInitView> {
    match tag {
        0 => match u16_at(s, pos) {
            Err(e) => Err(e),
            Ok((k, p)) => match str_at(s, p, t.strings) {
                Err(e) => Err(e),
                Ok((n, end)) => Ok((CapInitView::Param(k, n), end)),
            },
        },
        1 => match str_at(s, pos, t.strings) {
            Err(e) => Err(e),
            Ok((n, end)) => Ok((CapInitView::Var(n), end)),
        },
        2 => match u16_at(s, pos) {
            Err(e) => Err(e),
            Ok((k, p)) => match str_at(s, p, t.strings) {
                Err(e) => Err(e),
                Ok((n, end)) => Ok((CapInitView::Fn(k, n), end)),
            },
        },
        3 => match str_at(s, pos, t.strings) {
            Err(e) => Err(e),
            Ok((n, p)) => match u8_at(s, p) {
                Err(e) => Err(e),
                Ok((b, end)) => if b <= 1 {
                    Ok((CapInitView::Lexical(n, b == 1), end))
                } else {
                    Err(DecodeError::BadBool(b))
                },
            },
        },
        _ => Err(DecodeError::BadCapInitTag(tag)),
    }
}

pub open spec fn cap_name(v: CapInitView) -> Seq<char> {
    match v {
        CapInitView::Param(_, n) => n,
        CapInitView::Var(n) => n,
        CapInitView::Fn(_, n) => n,
        CapInitView::Lexical(n, _) => n,
    }
}

impl Wire for CapInit {
    open spec fn carried(v: CapInitView, unit: Seq<FnId>) -> bool {
        true
    }

    open spec fn refusal() -> EncodeError {
        EncodeError::Constant
    }

    open spec fn canonical(v: CapInitView) -> bool {
        true
    }

    open spec fn strs(v: CapInitView) -> Seq<Seq<char>> {
        seq![cap_name(v)]
    }

    open spec fn bytes(v: CapInitView, unit: Seq<FnId>, table: Seq<Seq<char>>) -> Seq<u8> {
        match v {
            CapInitView::Param(k, n) => seq![0u8] + uv_bytes(k as nat) + str_bytes(n, table),
            CapInitView::Var(n) => seq![1u8] + str_bytes(n, table),
            CapInitView::Fn(k, n) => seq![2u8] + uv_bytes(k as nat) + str_bytes(n, table),
            CapInitView::Lexical(n, c) => seq![3u8] + str_bytes(n, table) + seq![
                if c { 1u8 } else { 0u8 },
            ],
        }
    }

    open spec fn at(s: Seq<u8>, pos: int, t: TablesView) -> Read<CapInitView> {
        match u8_at(s, pos) {
            Err(e) => Err(e),
            Ok((tag, p)) => cap_body_at(tag, s, p, t),
        }
    }

    proof fn lemma_nonempty(v: CapInitView, unit: Seq<FnId>, table: Seq<Seq<char>>) {
    }

    proof fn lemma_stable(v: CapInitView, unit: Seq<FnId>, a: Seq<Seq<char>>, b: Seq<Seq<char>>) {
        assert(Self::strs(v)[0] == cap_name(v));
        lemma_str_index_stable(a, b, cap_name(v));
    }

    proof fn lemma_reads_back(
        s: Seq<u8>,
        pos: int,
        t: TablesView,
        v: CapInitView,
        unit: Seq<FnId>,
        table: Seq<Seq<char>>,
    ) {
        assert(Self::strs(v)[0] == cap_name(v));
        let n = cap_name(v);
        match v {
            CapInitView::Param(k, _) => {
                lemma_numbered_reads_back(s, pos, 0, k, n, table);
            },
            CapInitView::Var(_) => {
                lemma_has_at_split(s, pos, seq![1u8], str_bytes(n, table));
                lemma_u8_reads_back(s, pos, 1);
                lemma_str_reads_back(s, pos + 1, n, table);
            },
            CapInitView::Fn(k, _) => {
                lemma_numbered_reads_back(s, pos, 2, k, n, table);
            },
            CapInitView::Lexical(_, c) => {
                let flag = if c { 1u8 } else { 0u8 };
                lemma_has_at_split(s, pos, seq![3u8] + str_bytes(n, table), seq![flag]);
                lemma_has_at_split(s, pos, seq![3u8], str_bytes(n, table));
                lemma_u8_reads_back(s, pos, 3);
                lemma_str_reads_back(s, pos + 1, n, table);
                lemma_u8_reads_back(s, pos + 1 + str_bytes(n, table).len(), flag);
            },
        }
    }

    fn write(&self, out: &mut Vec<u8>, strings: &mut Strings, unit: &UnitIndex) -> (r: Result<
        (),
        EncodeError,
    >) {
        let ghost o0 = out@;
        match self {
            CapInit::Param(k, n) => {
                out.push(0);
                uv(out, *k as u64);
                write_str(out, strings, n.as_str());
                assert(out@ =~= o0 + (seq![0u8] + uv_bytes(*k as nat) + str_bytes(n@, strings@)));
            },
            CapInit::Var(n) => {
                out.push(1);
                write_str(out, strings, n.as_str());
                assert(out@ =~= o0 + (seq![1u8] + str_bytes(n@, strings@)));
            },
            CapInit::Fn(k, n) => {
                out.push(2);
                uv(out, *k as u64);
                write_str(out, strings, n.as_str());
                assert(out@ =~= o0 + (seq![2u8] + uv_bytes(*k as nat) + str_bytes(n@, strings@)));
            },
            CapInit::Lexical(n, c) => {
                out.push(3);
                write_str(out, strings, n.as_str());
                out.push(if *c { 1 } else { 0 });
                assert(out@ =~= o0 + (seq![3u8] + str_bytes(n@, strings@) + seq![
                    if *c { 1u8 } else { 0u8 },
                ]));
            },
        }
        Ok(())
    }

    fn read(r: &mut Rd, t: &Tables) -> (res: Result<CapInit, DecodeError>) {
        let tag: u8 = r.u8()?;
        match tag {
            0 => {
                let k: u16 = r.u16()?;
                let n: &str = read_str(r, t.strings)?;
                Ok(CapInit::Param(k, n.to_owned()))
            },
            1 => {
                let n: &str = read_str(r, t.strings)?;
                Ok(CapInit::Var(n.to_owned()))
            },
            2 => {
                let k: u16 = r.u16()?;
                let n: &str = read_str(r, t.strings)?;
                Ok(CapInit::Fn(k, n.to_owned()))
            },
            3 => {
                let n: &str = read_str(r, t.strings)?;
                let b: u8 = r.u8()?;
                if b <= 1 {
                    Ok(CapInit::Lexical(n.to_owned(), b == 1))
                } else {
                    Err(DecodeError::BadBool(b))
                }
            },
            _ => Err(DecodeError::BadCapInitTag(tag)),
        }
    }
}

proof fn lemma_numbered_reads_back(
    s: Seq<u8>,
    pos: int,
    tag: u8,
    k: u16,
    n: Seq<char>,
    table: Seq<Seq<char>>,
)
    requires
        table.contains(n),
        table.no_duplicates(),
        table.len() <= u64::MAX,
        has_at(s, pos, seq![tag] + uv_bytes(k as nat) + str_bytes(n, table)),
    ensures
        u8_at(s, pos) == Ok::<(u8, int), DecodeError>((tag, pos + 1)),
        u16_at(s, pos + 1) == Ok::<(u16, int), DecodeError>(
            (k, pos + 1 + uv_bytes(k as nat).len()),
        ),
        str_at(s, pos + 1 + uv_bytes(k as nat).len(), table) == Ok::<(Seq<char>, int), DecodeError>(
            (n, pos + 1 + uv_bytes(k as nat).len() + str_bytes(n, table).len()),
        ),
{
    lemma_has_at_split(s, pos, seq![tag] + uv_bytes(k as nat), str_bytes(n, table));
    lemma_has_at_split(s, pos, seq![tag], uv_bytes(k as nat));
    lemma_u8_reads_back(s, pos, tag);
    lemma_uv_reads_back(s, pos + 1, k as u64);
    lemma_str_reads_back(s, pos + 1 + uv_bytes(k as nat).len(), n, table);
}

} // verus!
