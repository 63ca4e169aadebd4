//! Laws of how a callee is named: by the name before the call's parenthesis, whatever stands
//! around it.

use crate::interpreter::callee_text::{
    before_paren, callee_at, callee_text, char_at_byte, fits, groups, id_char, name_len, named,
    operator_word, space, tail_start, trim_end, trim_start, Run,
};
use crate::interpreter::line_table::byte_off;
use vstd::prelude::*;

verus! {

/// Letters, digits, the underscore, the dollar sign and the two joiners stand in names; blanks
/// and punctuation do not.
pub proof fn lemma_characters_of_names(c: char)
    ensures
        'a' <= c <= 'z' || 'A' <= c <= 'Z' || '0' <= c <= '9' ==> id_char(c),
        id_char('_'),
        id_char('$'),
        id_char('\u{200c}'),
        id_char('\u{200d}'),
        c == ' ' || c == '(' || c == ')' || c == '.' || c == '#' || c == '?' || c == '[' || c == ']'
            || c == ',' || c == ';' || c == '=' || c == '\n' || c == '\t' ==> !id_char(c),
        fits(Run::Word, c) == id_char(c),
        fits(Run::Name, c) == (id_char(c) || c == '#'),
        fits(Run::Chain, c) == (id_char(c) || c == '#' || c == '.' || c == ' ' || c == '\t'),
{
}

/// The white space: the control blanks, the space, and Unicode's other spaces and separators.
pub proof fn lemma_white_space(c: char)
    ensures
        c == '\t' || c == '\n' || c == '\r' || c == ' ' || c == '\u{b}' || c == '\u{c}' ==> space(c),
        c == '\u{85}' || c == '\u{a0}' || c == '\u{1680}' || c == '\u{2028}' || c == '\u{2029}' || c
            == '\u{202f}' || c == '\u{205f}' || c == '\u{3000}' ==> space(c),
        '\u{2000}' <= c <= '\u{200a}' ==> space(c),
        '!' <= c <= '~' ==> !space(c),
        c == '\u{200b}' || c == '\u{feff}' || c == '\u{8}' || c == '\u{e}' ==> !space(c),
{
}

/// Trimming the end takes away white space there, all of it, and nothing else.
pub proof fn lemma_ends_are_trimmed(s: Seq<char>, i: int)
    ensures
        trim_end(s).len() <= s.len(),
        trim_end(s) == s.take(trim_end(s).len() as int),
        trim_end(s).len() <= i < s.len() ==> space(s[i]),
        trim_end(s).len() > 0 ==> !space(trim_end(s).last()),
    decreases s.len(),
{
    if s.len() > 0 && space(s.last()) {
        lemma_ends_are_trimmed(s.drop_last(), i);
        assert(s.drop_last().take(trim_end(s).len() as int) =~= s.take(trim_end(s).len() as int));
        if i < s.len() - 1 && trim_end(s).len() <= i {
            assert(s.drop_last()[i] == s[i]);
        }
    } else {
        assert(s.take(s.len() as int) =~= s);
    }
}

/// Trimming the start takes away white space there, all of it, and nothing else.
pub proof fn lemma_starts_are_trimmed(s: Seq<char>, i: int)
    ensures
        trim_start(s).len() <= s.len(),
        trim_start(s) == s.skip(s.len() - trim_start(s).len()),
        0 <= i < s.len() - trim_start(s).len() ==> space(s[i]),
        trim_start(s).len() > 0 ==> !space(trim_start(s)[0]),
    decreases s.len(),
{
    if s.len() > 0 && space(s[0]) {
        let d = s.drop_first();
        lemma_starts_are_trimmed(d, i - 1);
        assert(d.skip(d.len() - trim_start(s).len()) =~= s.skip(s.len() - trim_start(s).len()));
        if 0 < i < s.len() - trim_start(s).len() {
            assert(d[i - 1] == s[i]);
        }
    } else {
        assert(s.skip(0) =~= s);
    }
}

/// The run at the end of a text is as long as its characters fit.
pub proof fn lemma_runs_are_longest(s: Seq<char>, run: Run, i: int)
    ensures
        0 <= tail_start(s, run) <= s.len(),
        tail_start(s, run) <= i < s.len() ==> fits(run, s[i]),
        tail_start(s, run) > 0 ==> !fits(run, s[tail_start(s, run) - 1]),
    decreases s.len(),
{
    if s.len() > 0 && fits(run, s.last()) {
        let d = s.drop_last();
        lemma_runs_are_longest(d, run, i);
        if i < d.len() && tail_start(s, run) <= i {
            assert(d[i] == s[i]);
        }
    }
}

proof fn lemma_run_behind(pre: Seq<char>, name: Seq<char>, run: Run)
    requires
        forall|i: int| 0 <= i < name.len() ==> fits(run, #[trigger] name[i]),
        pre.len() == 0 || !fits(run, pre.last()),
    ensures
        tail_start(pre + name, run) == pre.len(),
        (pre + name).skip(pre.len() as int) == name,
        (pre + name).take(pre.len() as int) == pre,
    decreases name.len(),
{
    let s = pre + name;
    assert(s.skip(pre.len() as int) =~= name);
    assert(s.take(pre.len() as int) =~= pre);
    if name.len() > 0 {
        let d = name.drop_last();
        assert(fits(run, name[name.len() - 1]));
        assert forall|i: int| 0 <= i < d.len() implies fits(run, #[trigger] d[i]) by {
            assert(d[i] == name[i]);
        }
        lemma_run_behind(pre, d, run);
        assert(s.drop_last() =~= pre + d);
    } else {
        assert(s =~= pre);
    }
}

/// A callee is called by the name it ends in. The name of a property stands behind the mark of
/// an intermediate value. What is no name (a number, `this` and the like) is an expression.
pub proof fn lemma_callees_are_called_by_their_last_name(pre: Seq<char>, name: Seq<char>)
    requires
        forall|i: int| 0 <= i < name.len() ==> id_char(#[trigger] name[i]) || name[i] == '#',
        pre.len() == 0 || !(id_char(pre.last()) || pre.last() == '#'),
    ensures
        ({
            let no_name = name.len() == 0 || '0' <= name[0] <= '9' || name == "this"@ || name
                == "null"@ || name == "true"@ || name == "false"@;
            let dotted = trim_end(pre).len() > 0 && trim_end(pre).last() == '.';
            &&& no_name ==> named(pre + name) == "expression"@
            &&& !no_name && dotted ==> named(pre + name) == "(intermediate value)."@ + name
            &&& !no_name && !dotted ==> named(pre + name) == name
        }),
{
    assert forall|i: int| 0 <= i < name.len() implies fits(Run::Name, #[trigger] name[i]) by {}
    lemma_run_behind(pre, name, Run::Name);
}

proof fn lemma_name_ends(s: Seq<char>, k: int, n: int)
    requires
        0 <= k <= n <= s.len(),
        forall|i: int| k <= i < n ==> id_char(#[trigger] s[i]),
        n == s.len() || !id_char(s[n]),
        n > 0,
    ensures
        name_len(s, k) == n,
    decreases n - k,
{
    if k < n {
        assert(id_char(s[k]));
        lemma_name_ends(s, k + 1, n);
    }
}

proof fn lemma_blanks_are_trimmed(gap: Seq<char>, rest: Seq<char>)
    requires
        forall|i: int| 0 <= i < gap.len() ==> space(#[trigger] gap[i]),
        rest.len() > 0,
        !space(rest[0]),
    ensures
        trim_start(gap + rest) == rest,
    decreases gap.len(),
{
    if gap.len() > 0 {
        assert(space(gap[0]));
        let d = gap.drop_first();
        assert forall|i: int| 0 <= i < d.len() implies space(#[trigger] d[i]) by {
            assert(space(gap[i + 1]));
        }
        lemma_blanks_are_trimmed(d, rest);
        assert((gap + rest).drop_first() =~= d + rest);
    } else {
        assert(gap + rest =~= rest);
    }
}

/// A call that begins at a name is of what is named up to the end of the name, when a
/// parenthesis follows, after blanks or at once.
pub proof fn lemma_calls_at_a_name(pre: Seq<char>, name: Seq<char>, gap: Seq<char>, rest: Seq<char>)
    requires
        name.len() > 0,
        forall|i: int| 0 <= i < name.len() ==> id_char(#[trigger] name[i]),
        forall|i: int| 0 <= i < gap.len() ==> #[trigger] gap[i] == ' ',
        rest.len() > 0,
        !id_char(rest[0]),
        !space(rest[0]),
    ensures
        callee_at(pre + name + gap + rest, pre.len() as int) == (if rest[0] == '(' {
            Some(named(pre + name))
        } else {
            None
        }),
{
    let s = pre + name + gap + rest;
    let tail = s.skip(pre.len() as int);
    assert(tail =~= name + gap + rest);
    assert(tail[0] == name[0]);
    assert(id_char(name[0]));
    let n = name.len() as int;
    assert(n == tail.len() || !id_char(tail[n])) by {
        if gap.len() > 0 {
            assert(tail[n] == gap[0]);
        } else {
            assert(tail[n] == rest[0]);
        }
    }
    assert forall|i: int| 0 <= i < n implies id_char(#[trigger] tail[i]) by {
        assert(tail[i] == name[i]);
    }
    lemma_name_ends(tail, 0, n);
    assert(tail.skip(n) =~= gap + rest);
    assert forall|i: int| 0 <= i < gap.len() implies space(#[trigger] gap[i]) by {}
    lemma_blanks_are_trimmed(gap, rest);
    assert(s.take(pre.len() as int + n) =~= pre + name);
}

/// A call that begins at its parenthesis is of what stands before it.
pub proof fn lemma_calls_at_a_parenthesis(s: Seq<char>, i: int)
    requires
        0 <= i < s.len(),
        s[i] == '(',
    ensures
        callee_at(s, i) == Some(before_paren(trim_end(s.take(i)))),
{
    assert(s.skip(i)[0] == s[i]);
}

/// An optional call is named without its mark; what ends neither in that nor in a parenthesis
/// is an expression.
pub proof fn lemma_what_stands_before_a_parenthesis(before: Seq<char>)
    ensures
        before_paren(before + seq!['?', '.']) == named(trim_end(before)),
        !(before.len() >= 2 && before[before.len() - 2] == '?' && before[before.len() - 1] == '.')
            && !(before.len() > 0 && before.last() == ')') ==> before_paren(before)
            == "expression"@,
{
    let s = before + seq!['?', '.'];
    assert(s.take(before.len() as int) =~= before);
    assert(s[s.len() - 2] == '?' && s[s.len() - 1] == '.');
}

/// A parenthesised chain of names is named by what it ends in, when the parentheses only group;
/// around anything else, or as a call's arguments, they make an expression.
pub proof fn lemma_parenthesised_callees(before: Seq<char>)
    requires
        before.len() > 0,
        before.last() == ')',
        !(before.len() >= 2 && before[before.len() - 2] == '?' && before.last() == '.'),
    ensures
        ({
            let inner = trim_end(before.drop_last());
            let start = tail_start(inner, Run::Chain);
            let outer = trim_end(inner.take(start));
            let text = trim_start(trim_end(inner.skip(start)));
            &&& !groups(outer) ==> before_paren(before) == "expression"@
            &&& text.len() == 0 ==> before_paren(before) == "expression"@
            &&& text.len() > 0 && (text[0] == '.' || text[0] == '#' || text.last() == '.')
                ==> before_paren(before) == "expression"@
            &&& groups(outer) && text.len() > 0 && text[0] != '.' && text[0] != '#' && text.last()
                != '.' ==> before_paren(before) == named(inner)
        }),
{
}

/// A parenthesis groups when nothing that could be called stands before it: no name but a
/// keyword operator, no closing bracket.
pub proof fn lemma_grouping_parentheses(o: Seq<char>, pre: Seq<char>, word: Seq<char>)
    requires
        trim_end(o) == pre + word,
        forall|i: int| 0 <= i < word.len() ==> id_char(#[trigger] word[i]),
        pre.len() == 0 || !id_char(pre.last()),
    ensures
        word.len() > 0 ==> groups(o.push('(')) == operator_word(word),
        word.len() == 0 && pre.len() > 0 && (pre.last() == ')' || pre.last() == ']') ==> !groups(
            o.push('('),
        ) || operator_word(word),
        word.len() == 0 && (pre.len() == 0 || !(pre.last() == ')' || pre.last() == ']')) ==> groups(
            o.push('('),
        ),
        o.len() == 0 || o.last() != '(' ==> !groups(o),
{
    assert(o.push('(').drop_last() =~= o);
    assert forall|i: int| 0 <= i < word.len() implies fits(Run::Word, #[trigger] word[i]) by {}
    lemma_run_behind(pre, word, Run::Word);
    if word.len() > 0 {
        assert(id_char(word[word.len() - 1]));
        assert((pre + word).last() == word.last());
    } else {
        assert(pre + word =~= pre);
    }
}

/// The keyword operators that a parenthesised expression may follow.
pub proof fn lemma_operator_words()
    ensures
        operator_word("return"@),
        operator_word("typeof"@),
        operator_word("void"@),
        operator_word("await"@),
        operator_word("case"@),
        operator_word("in"@),
        operator_word("of"@),
        operator_word("delete"@),
        operator_word("throw"@),
        operator_word("yield"@),
        operator_word("else"@),
        operator_word("do"@),
        operator_word("instanceof"@),
{
}

/// A byte offset is that of the character that begins there, and of none where none does.
pub proof fn lemma_offsets_find_characters(s: Seq<char>, from: int, pos: u32, i: int)
    requires
        0 <= from,
    ensures
        char_at_byte(s, from, pos) matches Some(k) ==> from <= k < s.len() && byte_off(s, k) == pos
            && (from <= i < k ==> byte_off(s, i) != pos),
        char_at_byte(s, from, pos) is None && from <= i < s.len() ==> byte_off(s, i) != pos,
    decreases s.len() - from,
{
    if from < s.len() && byte_off(s, from) != pos {
        lemma_offsets_find_characters(s, from + 1, pos, i);
    }
}

/// A callee is described where the position is one of the source's characters.
pub proof fn lemma_callees_are_described_at_characters(s: Seq<char>, pos: u32)
    ensures
        callee_text(s, 0xffff_ffff) is None,
        pos != 0xffff_ffff && char_at_byte(s, 0, pos) is None ==> callee_text(s, pos) is None,
        pos != 0xffff_ffff && char_at_byte(s, 0, pos) is Some ==> callee_text(s, pos) == callee_at(
            s,
            char_at_byte(s, 0, pos)->0,
        ),
{
}

} // verus!
