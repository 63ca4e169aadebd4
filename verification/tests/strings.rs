//! Strings, their views and pools.

use lumen::cldr_pack::{compare, Order, Pool};
use lumen::lstr::{is_ascii, LStr, StrHeap};
use lumen::lstr_compact::{compact_views, view_stats};
use lumen::text::{chars_of, is_letter_or_digit, push_dec, same, text_range};

fn text_of(heap: &StrHeap, s: &LStr) -> String {
    String::from_utf8(s.as_str(heap).to_vec()).unwrap()
}

#[test]
fn views_share_and_compact() {
    let mut h = StrHeap::new();
    let text: String = (0..200).map(|i| format!("line number {i:04} of the long list é\n")).collect();
    let root = LStr::from_bytes(&mut h, text.as_bytes());
    let mut lines: Vec<LStr> = Vec::new();
    let mut at: usize = 0;
    for l in text.split('\n') {
        lines.push(root.sub(&mut h, at, l.len(), true));
        at += l.len() + 1;
    }
    assert!(lines[3].is_view(&h) && text_of(&h, &lines[3]) == "line number 0003 of the long list é");
    // A view of a view is a view of the root.
    let whole = lines[3].as_str(&h).len();
    let mid = lines[3].sub(&mut h, 2, whole - 2, true);
    assert!(mid.is_view(&h) && text_of(&h, &mid) == "ne number 0003 of the long list é");
    // Short pieces are copies; the whole string is the string itself.
    let short = lines[3].sub(&mut h, 0, 4, true);
    assert!(!short.is_view(&h));
    short.release(&mut h);
    let again = root.sub(&mut h, 0, text.len(), true);
    assert!(LStr::ptr_eq(&again, &root));
    again.release(&mut h);
    // An append never writes into the root.
    let mut s = lines[5].duplicate(&mut h);
    let gone = lines[5].duplicate(&mut h);
    gone.release(&mut h);
    assert!(!s.append_in_place(&mut h, b"x"));
    let grown = s.concat_grown(&mut h, b"x");
    s.release(&mut h);
    let s = grown;
    assert!(text_of(&h, &s).ends_with("éx"));
    assert_eq!(text_of(&h, &lines[6]), "line number 0006 of the long list é");
    // Only views left, covering little: compaction copies them out and frees the root.
    let keep = [lines[7].duplicate(&mut h), mid.duplicate(&mut h), lines[4].duplicate(&mut h)];
    for l in lines {
        l.release(&mut h);
    }
    root.release(&mut h);
    let (_, views, bytes) = view_stats(&h);
    assert_eq!((views, bytes), (3, text.len()));
    let used: usize = keep.iter().map(|k| k.as_str(&h).len()).sum();
    assert_eq!(compact_views(&mut h), text.len() - used);
    assert_eq!(text_of(&h, &keep[0]), "line number 0007 of the long list é");
    assert_eq!(text_of(&h, &keep[1]), "ne number 0003 of the long list é");
    assert_eq!(text_of(&h, &keep[2]), "line number 0004 of the long list é");
    assert_eq!(view_stats(&h).1, 3);
    for k in keep {
        k.release(&mut h);
    }
    mid.release(&mut h);
    s.release(&mut h);
    assert_eq!(view_stats(&h), (0, 0, 0));
}

#[test]
fn appends_write_in_place_while_unshared() {
    let mut h = StrHeap::new();
    let a = LStr::from_bytes(&mut h, b"ab");
    let mut g = a.concat_grown(&mut h, b"c");
    assert!(g.append_in_place(&mut h, b"d"));
    assert_eq!(text_of(&h, &g), "abcd");
    let shared = g.duplicate(&mut h);
    assert_eq!(g.strong_count(&h), 2);
    assert!(!g.append_in_place(&mut h, b"e"));
    assert_eq!(text_of(&h, &shared), "abcd");
    assert_eq!(text_of(&h, &a), "ab");
}

#[test]
fn concatenations_join_their_parts() {
    let mut h = StrHeap::new();
    let a = LStr::concat2(&mut h, b"left ", b"right");
    assert_eq!(text_of(&h, &a), "left right");
    let b = LStr::concat_n(&mut h, &vec![b"left".to_vec(), b" ".to_vec(), b"right".to_vec()]);
    assert!(LStr::same_text(&a, &b, &h));
    assert!(!LStr::ptr_eq(&a, &b));
    assert!(a.ascii_hint(&h));
    assert!(is_ascii(b"abc") && !is_ascii("é".as_bytes()));
}

#[test]
fn views_can_be_switched_off() {
    let mut h = StrHeap::new();
    let root = LStr::from_bytes(&mut h, &[b'a'; 400]);
    let off = root.sub(&mut h, 10, 100, false);
    assert!(!off.is_view(&h));
    let on = root.sub(&mut h, 10, 100, true);
    assert!(on.is_view(&h));
    assert!(LStr::same_text(&off, &on, &h));
}

#[test]
fn pooled_strings_are_found_by_their_text() {
    let p = Pool { text: b"abbcd".to_vec(), ends: vec![1, 3, 5] };
    assert_eq!(p.get(0), b"a");
    assert_eq!(p.get(1), b"bb");
    assert_eq!(p.get(2), b"cd");
    for id in 0..3u16 {
        assert_eq!(p.id(p.get(id)), Some(id));
    }
    assert_eq!(p.id(b"b"), None);
    assert_eq!(p.id(b""), None);
    assert_eq!(compare(b"ab", b"abc"), Order::Less);
    assert_eq!(compare(b"b", b"abc"), Order::Greater);
    assert_eq!(compare(b"b", b"b"), Order::Equal);
}

#[test]
fn texts_are_taken_apart_and_put_together() {
    let cs = chars_of("aé😀");
    assert_eq!(cs, vec!['a', 'é', '😀']);
    assert_eq!(text_range(&cs, 1, 3), "é😀");
    assert!(same("é", "é") && !same("é", "e"));
    let mut s = "n=".to_string();
    push_dec(&mut s, 10203);
    push_dec(&mut s, 0);
    assert_eq!(s, "n=102030");
}

#[test]
fn letters_and_digits_are_those_of_unicode() {
    for c in ['a', 'Z', '7', 'é', 'ß', '中', '٣'] {
        assert!(is_letter_or_digit(c), "{c}");
    }
    for c in ['_', '$', ' ', '.', '→', '\u{200c}'] {
        assert!(!is_letter_or_digit(c), "{c}");
    }
}
