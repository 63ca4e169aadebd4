//! Values. A Number is held as its IEEE 754 bit pattern; symbols and objects are identities.

use vstd::prelude::*;

verus! {

/// An arbitrary-precision integer: a sign and the magnitude's digits in base sixteen.
#[derive(Debug)]
pub struct BigInt {
    pub negative: bool,
    /// Lower-case, without leading zeros; zero is `"0"`.
    pub hex: String,
}

pub struct BigIntView {
    pub negative: bool,
    pub hex: Seq<char>,
}

/// Whether `c` is a lower-case hexadecimal digit.
pub open spec fn is_hex(c: char) -> bool {
    '0' <= c <= '9' || 'a' <= c <= 'f'
}

impl BigIntView {
    /// The digits are canonical, and zero is not negative.
    pub open spec fn wf(self) -> bool {
        &&& canonical_hex(self.hex)
        &&& self.hex == seq!['0'] ==> !self.negative
    }
}

/// The digits of a magnitude, without leading zeros.
pub open spec fn canonical_hex(s: Seq<char>) -> bool {
    &&& s.len() > 0
    &&& forall|i: int| 0 <= i < s.len() ==> is_hex(#[trigger] s[i])
    &&& s.len() > 1 ==> s[0] != '0'
}

impl DeepView for BigInt {
    type V = BigIntView;

    open spec fn deep_view(&self) -> BigIntView {
        BigIntView { negative: self.negative, hex: self.hex@ }
    }
}

/// A JavaScript value. `Empty` marks an uninitialized binding or a hole.
#[derive(Debug)]
pub enum Value {
    Undefined,
    Empty,
    Null,
    Bool(bool),
    Num(u64),
    BigInt(BigInt),
    Str(String),
    Sym(u64),
    Obj(u64),
}

pub enum ValueView {
    Undefined,
    Empty,
    Null,
    Bool(bool),
    Num(u64),
    BigInt(BigIntView),
    Str(Seq<char>),
    Sym(u64),
    Obj(u64),
}

impl DeepView for Value {
    type V = ValueView;

    open spec fn deep_view(&self) -> ValueView {
        match *self {
            Value::Undefined => ValueView::Undefined,
            Value::Empty => ValueView::Empty,
            Value::Null => ValueView::Null,
            Value::Bool(b) => ValueView::Bool(b),
            Value::Num(n) => ValueView::Num(n),
            Value::BigInt(b) => ValueView::BigInt(b.deep_view()),
            Value::Str(s) => ValueView::Str(s@),
            Value::Sym(i) => ValueView::Sym(i),
            Value::Obj(i) => ValueView::Obj(i),
        }
    }
}

impl Value {
    /// A copy of the value.
    pub fn duplicate(&self) -> (r: Value)
        ensures
            r == *self,
    {
        match self {
            Value::Undefined => Value::Undefined,
            Value::Empty => Value::Empty,
            Value::Null => Value::Null,
            Value::Bool(b) => Value::Bool(*b),
            Value::Num(n) => Value::Num(*n),
            Value::BigInt(b) => Value::BigInt(BigInt { negative: b.negative, hex: b.hex.clone() }),
            Value::Str(s) => Value::Str(s.clone()),
            Value::Sym(i) => Value::Sym(*i),
            Value::Obj(i) => Value::Obj(*i),
        }
    }

    /// Whether the value is `undefined`.
    pub fn is_undefined(&self) -> (r: bool)
        ensures
            r == (*self == Value::Undefined),
    {
        match self {
            Value::Undefined => true,
            _ => false,
        }
    }
}

/// Copies a run of values.
pub fn duplicate_all(vs: &[Value]) -> (r: Vec<Value>)
    ensures
        r@ == vs@,
{
    let mut out: Vec<Value> = Vec::new();
    let mut i: usize = 0;
    while i < vs.len()
        invariant
            i <= vs@.len(),
            out@ == vs@.take(i as int),
        decreases vs@.len() - i,
    {
        out.push(vs[i].duplicate());
        i = i + 1;
        assert(out@ =~= vs@.take(i as int));
    }
    assert(out@ =~= vs@);
    out
}

/// Whether `c` is a hexadecimal digit of either case.
pub open spec fn is_hex_digit(c: char) -> bool {
    is_hex(c) || 'A' <= c <= 'F'
}

/// The lower-case form of a hexadecimal digit.
pub open spec fn hex_lower(c: char) -> char {
    if 'A' <= c <= 'F' {
        (c as u32 + 32) as char
    } else {
        c
    }
}

/// The digits without leading zeros (at least one digit stays).
pub open spec fn strip_zeros(s: Seq<char>) -> Seq<char>
    decreases s.len(),
{
    if s.len() > 1 && s[0] == '0' {
        strip_zeros(s.drop_first())
    } else {
        s
    }
}

/// The canonical digits of the magnitude that `s` writes in base sixteen.
pub open spec fn hex_magnitude(s: Seq<char>) -> Option<Seq<char>> {
    if s.len() > 0 && (forall|i: int| 0 <= i < s.len() ==> is_hex_digit(#[trigger] s[i])) {
        Some(strip_zeros(Seq::new(s.len(), |i: int| hex_lower(s[i]))))
    } else {
        None
    }
}

/// Canonical digits are read as they stand.
pub proof fn lemma_hex_magnitude_canonical(s: Seq<char>)
    requires
        canonical_hex(s),
    ensures
        hex_magnitude(s) == Some(s),
{
    assert(Seq::new(s.len(), |i: int| hex_lower(s[i])) =~= s);
}

proof fn lemma_strip_zeros_subrange(s: Seq<char>, k: int)
    requires
        0 <= k < s.len(),
        forall|i: int| 0 <= i < k ==> s[i] == '0',
    ensures
        strip_zeros(s) == strip_zeros(s.subrange(k, s.len() as int)),
    decreases k,
{
    if k > 0 {
        lemma_strip_zeros_subrange(s.drop_first(), k - 1);
        assert(s.drop_first().subrange(k - 1, s.len() - 1) =~= s.subrange(k, s.len() as int));
    } else {
        assert(s.subrange(0, s.len() as int) =~= s);
    }
}

/// Reads a magnitude written in base sixteen.
pub fn parse_hex(s: &str) -> (r: Option<String>)
    ensures
        match (r, hex_magnitude(s@)) {
            (Some(a), Some(b)) => a@ == b,
            (None, None) => true,
            _ => false,
        },
{
    let n: usize = s.unicode_len();
    if n == 0 {
        return None;
    }
    let mut out: String = String::new();
    let ghost low = Seq::new(s@.len(), |i: int| hex_lower(s@[i]));
    let mut skipped: usize = 0;
    let mut i: usize = 0;
    while i < n
        invariant
            n == s@.len(),
            n > 0,
            i <= n,
            skipped <= i,
            low == Seq::new(s@.len(), |i: int| hex_lower(s@[i])),
            forall|j: int| 0 <= j < i ==> is_hex_digit(#[trigger] s@[j]),
            forall|j: int| 0 <= j < skipped ==> #[trigger] low[j] == '0',
            skipped < n,
            skipped < i ==> skipped + 1 == n || low[skipped as int] != '0',
            out@ == low.subrange(skipped as int, i as int),
        decreases n - i,
    {
        let c: char = s.get_char(i);
        let d: char;
        if ('0' <= c && c <= '9') || ('a' <= c && c <= 'f') {
            d = c;
        } else if 'A' <= c && c <= 'F' {
            d = (c as u8 + 32) as char;
        } else {
            return None;
        }
        assert(d == low[i as int]);
        if d == '0' && skipped == i && i + 1 < n {
            skipped = skipped + 1;
            assert(out@ =~= low.subrange(skipped as int, i + 1));
        } else {
            out.push(d);
            assert(out@ =~= low.subrange(skipped as int, i + 1));
        }
        i = i + 1;
    }
    proof {
        lemma_strip_zeros_subrange(low, skipped as int);
    }
    Some(out)
}

/// The value of a lower-case hexadecimal digit; 0 for any other character.
pub open spec fn digit_value(c: char) -> nat {
    if '0' <= c <= '9' {
        (c as u32 - 48) as nat
    } else if 'a' <= c <= 'f' {
        (c as u32 - 87) as nat
    } else {
        0
    }
}

/// The number that digits write in base sixteen.
pub open spec fn hex_value(s: Seq<char>) -> nat
    decreases s.len(),
{
    if s.len() == 0 {
        0
    } else {
        hex_value(s.drop_last()) * 16 + digit_value(s.last())
    }
}

/// The integer that a BigInt is.
pub open spec fn big_value(b: BigInt) -> int {
    if b.negative {
        -(hex_value(b.hex@) as int)
    } else {
        hex_value(b.hex@) as int
    }
}

proof fn lemma_hex_value_grows(s: Seq<char>, k: int)
    requires
        0 <= k <= s.len(),
    ensures
        hex_value(s.take(k)) <= hex_value(s),
    decreases s.len() - k,
{
    if k < s.len() {
        lemma_hex_value_grows(s, k + 1);
        assert(s.take(k + 1).drop_last() =~= s.take(k));
    } else {
        assert(s.take(k) =~= s);
    }
}

impl BigInt {
    /// The magnitude, where it fits.
    pub fn magnitude(&self) -> (r: Option<u64>)
        ensures
            r == if hex_value(self.hex@) <= u64::MAX {
                Some(hex_value(self.hex@) as u64)
            } else {
                None
            },
    {
        let cs = crate::text::chars_of(self.hex.as_str());
        let mut v: u64 = 0;
        let mut i: usize = 0;
        while i < cs.len()
            invariant
                i <= cs@.len(),
                cs@ == self.hex@,
                v == hex_value(cs@.take(i as int)),
            decreases cs@.len() - i,
        {
            let c: char = cs[i];
            let d: u64 = if '0' <= c && c <= '9' {
                c as u64 - 48
            } else if 'a' <= c && c <= 'f' {
                c as u64 - 87
            } else {
                0
            };
            assert(d == digit_value(c));
            assert(cs@.take(i + 1).drop_last() =~= cs@.take(i as int));
            assert(cs@.take(i + 1).last() == c);
            if v > 0xfff_ffff_ffff_ffff {
                proof {
                    lemma_hex_value_grows(cs@, i + 1);
                }
                return None;
            }
            v = v * 16 + d;
            i = i + 1;
        }
        assert(cs@.take(i as int) =~= cs@);
        Some(v)
    }
}

/// The digits of `n` in base sixteen, most significant first.
pub open spec fn hex_digits(n: nat) -> Seq<char>
    decreases n,
{
    if n < 16 {
        seq![hex_digit(n)]
    } else {
        hex_digits(n / 16).push(hex_digit(n % 16))
    }
}

/// The lower-case digit of `d < 16`.
pub open spec fn hex_digit(d: nat) -> char {
    if d < 10 {
        (48 + d) as char
    } else {
        (87 + d) as char
    }
}

fn push_hex(out: &mut String, n: u64)
    ensures
        final(out)@ == old(out)@ + hex_digits(n as nat),
    decreases n,
{
    if n >= 16 {
        push_hex(out, n / 16);
    }
    let d: u8 = (n % 16) as u8;
    let c: char = if d < 10 {
        (48 + d) as char
    } else {
        (87 + d) as char
    };
    out.push(c);
    proof {
        if n >= 16 {
            assert(old(out)@ + hex_digits((n / 16) as nat).push(c) =~= (old(out)@ + hex_digits(
                (n / 16) as nat,
            )).push(c));
        } else {
            assert(old(out)@ + seq![c] =~= old(out)@.push(c));
        }
    }
}

proof fn lemma_hex_digits(n: nat)
    ensures
        hex_value(hex_digits(n)) == n,
        canonical_hex(hex_digits(n)),
        n > 0 ==> hex_digits(n) != seq!['0'],
    decreases n,
{
    if n < 16 {
        assert(hex_digits(n).drop_last() =~= Seq::<char>::empty());
        assert(hex_digits(n)[0] == hex_digit(n));
        assert(hex_value(Seq::<char>::empty()) == 0);
        assert(hex_digits(n).last() == hex_digit(n));
        assert(digit_value(hex_digit(n)) == n);
    } else {
        lemma_hex_digits(n / 16);
        let p = hex_digits(n / 16);
        assert(hex_digits(n).drop_last() =~= p);
        assert(hex_digits(n)[0] == p[0]);
        assert(p.len() == 1 ==> p =~= seq![p[0]]);
        assert(hex_digits(n).len() > 1);
        assert(hex_digits(n).last() == hex_digit(n % 16));
        assert(digit_value(hex_digit(n % 16)) == n % 16);
    }
}

impl BigInt {
    /// The BigInt with a sign and a magnitude; zero has no sign.
    pub fn from_parts(negative: bool, magnitude: u64) -> (r: BigInt)
        ensures
            r.deep_view().wf(),
            big_value(r) == if negative {
                -(magnitude as int)
            } else {
                magnitude as int
            },
    {
        let mut hex = String::new();
        push_hex(&mut hex, magnitude);
        proof {
            lemma_hex_digits(magnitude as nat);
            assert(hex@ =~= hex_digits(magnitude as nat));
        }
        BigInt { negative: negative && magnitude != 0, hex }
    }
}

} // verus!
