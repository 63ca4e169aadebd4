//! How a call's callee is named in "is not a function" errors, read back from the source text.

use crate::ast::NO_POS;
use crate::interpreter::line_table::{byte_off, utf8_len};
use crate::text::{is_letter_or_digit, letter_or_digit, same, text_range};
use vstd::prelude::*;

verus! {

/// Whether a character may stand in a name.
pub open spec fn id_char(c: char) -> bool {
    letter_or_digit(c) || c == '_' || c == '$' || c == '\u{200c}' || c == '\u{200d}'
}

fn is_id_char(c: char) -> (r: bool)
    ensures
        r == id_char(c),
{
    is_letter_or_digit(c) || c == '_' || c == '$' || c == '\u{200c}' || c == '\u{200d}'
}

/// Whether a character is white space in Unicode.
pub open spec fn space(c: char) -> bool {
    let v = c as u32;
    9 <= v <= 13 || v == 0x20 || v == 0x85 || v == 0xa0 || v == 0x1680 || 0x2000 <= v <= 0x200a || v
        == 0x2028 || v == 0x2029 || v == 0x202f || v == 0x205f || v == 0x3000
}

pub(crate) fn is_space(c: char) -> (r: bool)
    ensures
        r == space(c),
{
    let v: u32 = c as u32;
    (v >= 9 && v <= 13) || v == 0x20 || v == 0x85 || v == 0xa0 || v == 0x1680 || (v >= 0x2000 && v
        <= 0x200a) || v == 0x2028 || v == 0x2029 || v == 0x202f || v == 0x205f || v == 0x3000
}

/// The characters of a run.
#[derive(Clone, Copy, Debug, PartialEq, Eq, Structural)]
pub enum Run {
    /// A name, private ones included.
    Name,
    /// A chain of names.
    Chain,
    /// A word.
    Word,
}

pub open spec fn fits(run: Run, c: char) -> bool {
    match run {
        Run::Name => id_char(c) || c == '#',
        Run::Chain => id_char(c) || c == '.' || c == '#' || c == ' ' || c == '\t',
        Run::Word => id_char(c),
    }
}

fn run_fits(run: Run, c: char) -> (r: bool)
    ensures
        r == fits(run, c),
{
    match run {
        Run::Name => is_id_char(c) || c == '#',
        Run::Chain => is_id_char(c) || c == '.' || c == '#' || c == ' ' || c == '\t',
        Run::Word => is_id_char(c),
    }
}

/// A text without the white space at its end.
pub open spec fn trim_end(s: Seq<char>) -> Seq<char>
    decreases s.len(),
{
    if s.len() > 0 && space(s.last()) {
        trim_end(s.drop_last())
    } else {
        s
    }
}

/// A text without the white space at its start.
pub open spec fn trim_start(s: Seq<char>) -> Seq<char>
    decreases s.len(),
{
    if s.len() > 0 && space(s[0]) {
        trim_start(s.drop_first())
    } else {
        s
    }
}

/// Where the run at the end of a text starts.
pub open spec fn tail_start(s: Seq<char>, run: Run) -> int
    decreases s.len(),
{
    if s.len() > 0 && fits(run, s.last()) {
        tail_start(s.drop_last(), run)
    } else {
        s.len() as int
    }
}

/// Whether a text ends with a character.
pub open spec fn ends_in(s: Seq<char>, c: char) -> bool {
    s.len() > 0 && s.last() == c
}

/// The name at the end of a text: with what it is a property of, or `expression` where it is no
/// name.
pub open spec fn named(text: Seq<char>) -> Seq<char> {
    let start = tail_start(text, Run::Name);
    let name = text.skip(start);
    if name.len() == 0 || '0' <= name[0] <= '9' || name == "this"@ || name == "null"@ || name
        == "true"@ || name == "false"@ {
        "expression"@
    } else if ends_in(trim_end(text.take(start)), '.') {
        "(intermediate value)."@ + name
    } else {
        name
    }
}

/// A keyword before a parenthesis that groups.
pub open spec fn operator_word(w: Seq<char>) -> bool {
    w == "return"@ || w == "typeof"@ || w == "void"@ || w == "await"@ || w == "case"@ || w == "in"@
        || w == "of"@ || w == "delete"@ || w == "throw"@ || w == "yield"@ || w == "else"@ || w
        == "do"@ || w == "instanceof"@
}

/// Whether a text ends in a parenthesis that groups: not one right behind a name, a call or an
/// index, unless the name is an operator keyword.
pub open spec fn groups(outer: Seq<char>) -> bool {
    if !ends_in(outer, '(') {
        false
    } else {
        let o = trim_end(outer.drop_last());
        let word = o.skip(tail_start(o, Run::Word));
        !(ends_in(o, ')') || ends_in(o, ']') || word.len() > 0) || operator_word(word)
    }
}

/// The callee before an opening parenthesis that no name precedes.
pub open spec fn before_paren(before: Seq<char>) -> Seq<char> {
    let n = before.len() as int;
    if n >= 2 && before[n - 2] == '?' && before[n - 1] == '.' {
        named(trim_end(before.take(n - 2)))
    } else if ends_in(before, ')') {
        let inner = trim_end(before.drop_last());
        let chain = tail_start(inner, Run::Chain);
        let text = trim_start(trim_end(inner.skip(chain)));
        if groups(trim_end(inner.take(chain))) && text.len() > 0 && text[0] != '.' && text[0] != '#'
            && text.last() != '.' {
            named(inner)
        } else {
            "expression"@
        }
    } else {
        "expression"@
    }
}

/// The length of the name that a text starts with.
pub open spec fn name_len(s: Seq<char>, k: int) -> int
    decreases s.len() - k,
{
    if 0 <= k < s.len() && (id_char(s[k]) || (k == 0 && s[k] == '#')) {
        name_len(s, k + 1)
    } else {
        k
    }
}

/// How the callee of the call at the character `i` is described; none where the text there is
/// not understood.
pub open spec fn callee_at(s: Seq<char>, i: int) -> Option<Seq<char>> {
    let rest = s.skip(i);
    if rest[0] == '(' {
        Some(before_paren(trim_end(s.take(i))))
    } else {
        let len = name_len(rest, 0);
        let after = trim_start(rest.skip(len));
        if len == 0 || after.len() == 0 || after[0] != '(' {
            None
        } else {
            Some(named(s.take(i + len)))
        }
    }
}

/// The character at a byte offset, if one starts there.
pub open spec fn char_at_byte(s: Seq<char>, from: int, pos: u32) -> Option<int>
    decreases s.len() - from,
{
    if !(0 <= from < s.len()) {
        None
    } else if byte_off(s, from) == pos {
        Some(from)
    } else {
        char_at_byte(s, from + 1, pos)
    }
}

/// How the callee of the call at a byte offset is described.
pub open spec fn callee_text(s: Seq<char>, pos: u32) -> Option<Seq<char>> {
    if pos == NO_POS {
        None
    } else {
        match char_at_byte(s, 0, pos) {
            Some(i) => callee_at(s, i),
            None => None,
        }
    }
}

fn trim_end_at(cs: &Vec<char>, end: usize) -> (r: usize)
    requires
        end <= cs@.len(),
    ensures
        r <= end,
        cs@.take(r as int) == trim_end(cs@.take(end as int)),
{
    let mut e: usize = end;
    while e > 0 && is_space(cs[e - 1])
        invariant
            e <= end <= cs@.len(),
            trim_end(cs@.take(e as int)) == trim_end(cs@.take(end as int)),
        decreases e,
    {
        assert(cs@.take(e as int).drop_last() =~= cs@.take(e - 1));
        assert(cs@.take(e as int).last() == cs@[e - 1]);
        e = e - 1;
    }
    assert(e > 0 ==> cs@.take(e as int).last() == cs@[e - 1]);
    e
}

fn tail_start_at(cs: &Vec<char>, end: usize, run: Run) -> (r: usize)
    requires
        end <= cs@.len(),
    ensures
        r <= end,
        r == tail_start(cs@.take(end as int), run),
{
    let mut e: usize = end;
    while e > 0 && run_fits(run, cs[e - 1])
        invariant
            e <= end <= cs@.len(),
            tail_start(cs@.take(e as int), run) == tail_start(cs@.take(end as int), run),
        decreases e,
    {
        assert(cs@.take(e as int).drop_last() =~= cs@.take(e - 1));
        assert(cs@.take(e as int).last() == cs@[e - 1]);
        e = e - 1;
    }
    assert(e > 0 ==> cs@.take(e as int).last() == cs@[e - 1]);
    e
}

fn named_at(cs: &Vec<char>, end: usize) -> (r: String)
    requires
        end <= cs@.len(),
    ensures
        r@ == named(cs@.take(end as int)),
{
    let start = tail_start_at(cs, end, Run::Name);
    let name = text_range(cs, start, end);
    let ghost text = cs@.take(end as int);
    assert(name@ =~= text.skip(start as int));
    if start == end {
        return "expression".to_owned();
    }
    assert(name@[0] == cs@[start as int]);
    let c: char = cs[start];
    if (c >= '0' && c <= '9') || same(name.as_str(), "this") || same(name.as_str(), "null") || same(
        name.as_str(),
        "true",
    ) || same(name.as_str(), "false") {
        return "expression".to_owned();
    }
    let e = trim_end_at(cs, start);
    assert(text.take(start as int) =~= cs@.take(start as int));
    assert(e > 0 ==> cs@.take(e as int).last() == cs@[e - 1]);
    if e > 0 && cs[e - 1] == '.' {
        let mut out = "(intermediate value).".to_owned();
        out.append(name.as_str());
        out
    } else {
        name
    }
}

fn is_operator_word(w: &str) -> (r: bool)
    ensures
        r == operator_word(w@),
{
    same(w, "return") || same(w, "typeof") || same(w, "void") || same(w, "await") || same(w, "case")
        || same(w, "in") || same(w, "of") || same(w, "delete") || same(w, "throw") || same(
        w,
        "yield",
    ) || same(w, "else") || same(w, "do") || same(w, "instanceof")
}

fn groups_at(cs: &Vec<char>, end: usize) -> (r: bool)
    requires
        end <= cs@.len(),
    ensures
        r == groups(cs@.take(end as int)),
{
    assert(end > 0 ==> cs@.take(end as int).last() == cs@[end - 1]);
    if end == 0 || cs[end - 1] != '(' {
        return false;
    }
    assert(cs@.take(end as int).drop_last() =~= cs@.take(end - 1));
    let e = trim_end_at(cs, end - 1);
    let w = tail_start_at(cs, e, Run::Word);
    let word = text_range(cs, w, e);
    assert(word@ =~= cs@.take(e as int).skip(w as int));
    assert(e > 0 ==> cs@.take(e as int).last() == cs@[e - 1]);
    let closed = e > 0 && (cs[e - 1] == ')' || cs[e - 1] == ']');
    !(closed || w < e) || is_operator_word(word.as_str())
}

fn before_paren_at(cs: &Vec<char>, end: usize) -> (r: String)
    requires
        end <= cs@.len(),
    ensures
        r@ == before_paren(cs@.take(end as int)),
{
    let ghost before = cs@.take(end as int);
    if end >= 2 && cs[end - 2] == '?' && cs[end - 1] == '.' {
        assert(before[end - 2] == cs@[end - 2] && before[end - 1] == cs@[end - 1]);
        assert(before.take(end - 2) =~= cs@.take(end - 2));
        let e = trim_end_at(cs, end - 2);
        return named_at(cs, e);
    }
    assert(end >= 2 ==> before[end - 2] == cs@[end - 2] && before[end - 1] == cs@[end - 1]);
    assert(end > 0 ==> before.last() == cs@[end - 1]);
    if end == 0 || cs[end - 1] != ')' {
        return "expression".to_owned();
    }
    assert(before.drop_last() =~= cs@.take(end - 1));
    let e = trim_end_at(cs, end - 1);
    let ghost inner = cs@.take(e as int);
    let chain = tail_start_at(cs, e, Run::Chain);
    let o = trim_end_at(cs, chain);
    assert(inner.take(chain as int) =~= cs@.take(chain as int));
    let grouping = groups_at(cs, o);
    let ghost tail = inner.skip(chain as int);
    proof {
        lemma_trimmed_end(cs@.take(end - 1));
        if tail.len() > 0 {
            assert(tail.last() == inner.last());
        }
    }
    let mut j: usize = chain;
    assert(cs@.subrange(chain as int, e as int) =~= tail);
    while j < e && is_space(cs[j])
        invariant
            chain <= j <= e <= cs@.len(),
            tail == cs@.take(e as int).skip(chain as int),
            trim_start(tail) == trim_start(cs@.subrange(j as int, e as int)),
        decreases e - j,
    {
        let ghost a = cs@.subrange(j as int, e as int);
        assert(a[0] == cs@[j as int]);
        assert(a.drop_first() =~= cs@.subrange(j + 1, e as int));
        j = j + 1;
    }
    let ghost text = cs@.subrange(j as int, e as int);
    proof {
        if j < e {
            assert(text[0] == cs@[j as int]);
            assert(text.last() == cs@[e - 1]);
        }
        assert(trim_start(tail) == text);
        assert(trim_end(tail) == tail);
    }
    if grouping && j < e && cs[j] != '.' && cs[j] != '#' && cs[e - 1] != '.' {
        named_at(cs, e)
    } else {
        "expression".to_owned()
    }
}

proof fn lemma_trimmed_end(s: Seq<char>)
    ensures
        trim_end(s).len() > 0 ==> !space(trim_end(s).last()),
        trim_end(trim_end(s)) == trim_end(s),
    decreases s.len(),
{
    if s.len() > 0 && space(s.last()) {
        lemma_trimmed_end(s.drop_last());
    }
}

fn bytes_of(c: char) -> (r: u64)
    ensures
        r == utf8_len(c),
{
    let v: u32 = c as u32;
    if v < 0x80 {
        1
    } else if v < 0x800 {
        2
    } else if v < 0x1_0000 {
        3
    } else {
        4
    }
}

/// How the callee of the call at a byte offset is described: a name, `(intermediate value).name`
/// for a property, else `expression`. None where the text there is not understood.
pub fn describe_callee_text(src: &str, pos: u32) -> (r: Option<String>)
    ensures
        match callee_text(src@, pos) {
            Some(t) => r matches Some(s) && s@ == t,
            None => r is None,
        },
{
    if pos == NO_POS {
        return None;
    }
    let cs = crate::text::chars_of(src);
    let ghost s = cs@;
    let n: usize = cs.len();
    let mut i: usize = 0;
    let mut at: u64 = 0;
    while i < n && at < pos as u64
        invariant
            n == s.len(),
            s == src@,
            s == cs@,
            i <= n,
            at == byte_off(s, i as int),
            at <= pos + 4,
            char_at_byte(s, 0, pos) == char_at_byte(s, i as int, pos),
        decreases n - i,
    {
        at = at + bytes_of(cs[i]);
        i = i + 1;
    }
    if i >= n || at != pos as u64 {
        proof {
            if i < n {
                lemma_past_the_byte(s, i as int, pos);
            }
        }
        return None;
    }
    let ghost rest = s.skip(i as int);
    assert(rest[0] == s[i as int]);
    if cs[i] == '(' {
        let e = trim_end_at(&cs, i);
        return Some(before_paren_at(&cs, e));
    }
    let mut k: usize = i;
    while k < n && (is_id_char(cs[k]) || (k == i && cs[k] == '#'))
        invariant
            n == s.len(),
            s == cs@,
            i <= k <= n,
            rest == s.skip(i as int),
            name_len(rest, 0) == name_len(rest, k - i),
        decreases n - k,
    {
        assert(rest[k - i] == s[k as int]);
        k = k + 1;
    }
    assert(k < n ==> rest[k - i] == s[k as int]);
    if k == i {
        return None;
    }
    let ghost after = rest.skip(k - i);
    assert(after =~= s.skip(k as int));
    let mut j: usize = k;
    while j < n && is_space(cs[j])
        invariant
            n == s.len(),
            s == cs@,
            k <= j <= n,
            trim_start(after) == trim_start(s.skip(j as int)),
        decreases n - j,
    {
        let ghost a = s.skip(j as int);
        assert(a[0] == s[j as int]);
        assert(a.drop_first() =~= s.skip(j + 1));
        j = j + 1;
    }
    assert(j < n ==> s.skip(j as int)[0] == s[j as int]);
    if j >= n || cs[j] != '(' {
        return None;
    }
    Some(named_at(&cs, k))
}

/// No character behind a byte offset starts at it.
proof fn lemma_past_the_byte(s: Seq<char>, from: int, pos: u32)
    requires
        0 <= from <= s.len(),
        byte_off(s, from) > pos,
    ensures
        char_at_byte(s, from, pos) is None,
    decreases s.len() - from,
{
    if from < s.len() {
        lemma_off_monotone(s, from, from + 1);
        lemma_past_the_byte(s, from + 1, pos);
    }
}

proof fn lemma_off_monotone(s: Seq<char>, i: int, j: int)
    requires
        0 <= i <= j,
    ensures
        byte_off(s, i) <= byte_off(s, j),
    decreases j - i,
{
    if i < j {
        lemma_off_monotone(s, i, j - 1);
    }
}

} // verus!
