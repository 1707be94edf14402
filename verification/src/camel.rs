//! Labels for keys: the last capital-led part of a camel-cased identifier.

use vstd::prelude::*;
use vstd::std_specs::iter::IteratorSpec;
use vstd::string::*;

verus! {

/// Whether `c` is an uppercase character of Unicode, as `char::is_uppercase`
/// decides it.
pub uninterp spec fn char_is_uppercase(c: char) -> bool;

/// Among the characters of ASCII, the uppercase ones are the letters from
/// `A` to `Z`; of other characters this says nothing.
pub open spec fn agrees_on_ascii(c: char) -> bool {
    (c as u32) < 128 ==> (char_is_uppercase(c) <==> 0x41 <= (c as u32) <= 0x5a)
}

/// Calls `char::is_uppercase`. The answer is named: whether Unicode counts
/// the character as uppercase depends on the character alone. Of an ASCII
/// character it is stated as well: uppercase are exactly `A` to `Z`.
#[verifier::external_body]
fn is_uppercase(c: char) -> (r: bool)
    ensures
        r == char_is_uppercase(c),
        (c as u32) < 128 ==> (r <==> 0x41 <= (c as u32) <= 0x5a),
{
    c.is_uppercase()
}

/// A part of `s` begins at `p`: at the front, or at an uppercase character.
pub open spec fn begins_part(s: Seq<char>, p: int) -> bool {
    p == 0 || (0 < p < s.len() && char_is_uppercase(s[p]))
}

/// The position at which the last part of `s` begins: the greatest position
/// that begins a part.
pub open spec fn last_part_start(s: Seq<char>) -> int
    decreases s.len(),
{
    if s.len() <= 1 {
        0
    } else if char_is_uppercase(s.last()) {
        s.len() - 1
    } else {
        last_part_start(s.drop_last())
    }
}

/// The last part of `s`: everything from the last position that begins a
/// part. For `"KeyM"` that is `"M"`; an identifier with no inner capital is
/// its own last part.
pub open spec fn last_camel_segment_spec(s: Seq<char>) -> Seq<char> {
    s.subrange(last_part_start(s), s.len() as int)
}

/// `last_part_start(s)` begins a part, and no later position does.
pub proof fn lemma_last_part_start(s: Seq<char>)
    ensures
        0 <= last_part_start(s) <= s.len(),
        s.len() > 0 ==> last_part_start(s) < s.len(),
        begins_part(s, last_part_start(s)),
        forall|q: int| last_part_start(s) < q < s.len() ==> !begins_part(s, q),
    decreases s.len(),
{
    if s.len() > 1 && !char_is_uppercase(s.last()) {
        let t = s.drop_last();
        lemma_last_part_start(t);
        assert forall|q: int| last_part_start(s) < q < s.len() implies !begins_part(s, q) by {
            if q < t.len() {
                assert(!begins_part(t, q));
                assert(t[q] == s[q]);
            }
        }
        let p = last_part_start(t);
        if p != 0 {
            assert(t[p] == s[p]);
        }
    }
}

/// Only one position begins a part and has no later one that does: that
/// alone determines the last part.
pub proof fn lemma_last_part_start_unique(s: Seq<char>, p: int)
    requires
        begins_part(s, p),
        forall|q: int| p < q < s.len() ==> !begins_part(s, q),
    ensures
        p == last_part_start(s),
{
    lemma_last_part_start(s);
    let l = last_part_start(s);
    if p < l {
        assert(begins_part(s, l));
    } else if l < p {
        assert(begins_part(s, p));
    }
}

/// Splits `ident` before every uppercase character but the first character
/// and gives the last part: `"KeyM"` gives `"M"`, `"Digit5"` and
/// `"Backspace"` give themselves, the empty string gives itself. Every
/// character of `ident` is tested, so of each ASCII one the caller learns
/// whether it counts as uppercase.
pub fn last_camel_segment(ident: &str) -> (r: String)
    ensures
        r@ == last_camel_segment_spec(ident@),
        forall|j: int| 0 <= j < ident@.len() ==> agrees_on_ascii(#[trigger] ident@[j]),
{
    let n: usize = ident.unicode_len();
    let mut start: usize = 0;
    let mut i: usize = 0;
    while i < n
        invariant
            n == ident@.len(),
            0 <= i <= n,
            start as int == last_part_start(ident@.take(i as int)),
            forall|j: int| 0 <= j < i ==> agrees_on_ascii(#[trigger] ident@[j]),
        decreases n - i,
    {
        let c = ident.get_char(i);
        proof {
            let t = ident@.take(i as int + 1);
            assert(t.last() == c);
            assert(t.drop_last() =~= ident@.take(i as int));
        }
        let upper = is_uppercase(c);
        if upper && i > 0 {
            start = i;
        }
        i = i + 1;
    }
    proof {
        assert(ident@.take(n as int) =~= ident@);
        lemma_last_part_start(ident@);
    }
    String::from_str(ident.substring_char(start, n))
}

/// Whether `c` is a letter or a digit of Unicode, as `char::is_alphanumeric`
/// decides it.
pub uninterp spec fn char_is_alphanumeric(c: char) -> bool;

/// Calls `char::is_alphanumeric`. The answer is named: whether Unicode
/// counts the character as a letter or a digit depends on the character
/// alone.
#[verifier::external_body]
fn is_alphanumeric(c: char) -> (r: bool)
    ensures
        r == char_is_alphanumeric(c),
{
    c.is_alphanumeric()
}

/// A character that words are made of: among ASCII the letters, the digits
/// and the underscore, beyond ASCII the letters and digits of Unicode.
pub open spec fn is_word_char(c: char) -> bool {
    if (c as u32) < 128 {
        0x61 <= (c as u32) <= 0x7a || 0x41 <= (c as u32) <= 0x5a || 0x30 <= (c as u32) <= 0x39
            || (c as u32) == 0x5f
    } else {
        char_is_alphanumeric(c)
    }
}

/// A blank of ASCII: space, tab, line feed, vertical tab, form feed or
/// carriage return.
pub open spec fn is_blank(c: char) -> bool {
    (c as u32) == 0x20 || 0x09 <= (c as u32) <= 0x0d
}

/// What the end of a text looks like to the count of nesting marks.
#[derive(Clone, Copy, Debug, PartialEq, Eq, Structural)]
pub enum Scan {
    /// No word stands just before the end.
    Clear,
    /// The text ends inside a word.
    Word,
    /// The text ends in blanks that follow a word.
    Gap,
}

/// How a text looks after one more character.
pub open spec fn scan_step(before: Scan, c: char) -> Scan {
    if is_word_char(c) {
        Scan::Word
    } else if is_blank(c) && before != Scan::Clear {
        Scan::Gap
    } else {
        Scan::Clear
    }
}

/// Whether the character `c`, read after a text that ends as `before`,
/// is a nesting mark: a character that is no part of a word, no blank and
/// no colon, or the first character of a word that only blanks part from
/// the word before.
pub open spec fn is_mark(before: Scan, c: char) -> bool {
    if is_word_char(c) {
        before == Scan::Gap
    } else {
        !is_blank(c) && (c as u32) != 0x3a
    }
}

/// How the text `s` ends.
pub open spec fn scan_state(s: Seq<char>) -> Scan
    decreases s.len(),
{
    if s.len() == 0 {
        Scan::Clear
    } else {
        scan_step(scan_state(s.drop_last()), s.last())
    }
}

/// The number of nesting marks in `s`. A parser goes no deeper into a text
/// than the text has brackets, operators and other signs, and words that
/// follow a word, so this number bounds the depth; words joined by `::`,
/// however many, have none.
pub open spec fn nesting_marks(s: Seq<char>) -> nat
    decreases s.len(),
{
    if s.len() == 0 {
        0
    } else {
        nesting_marks(s.drop_last()) + if is_mark(scan_state(s.drop_last()), s.last()) {
            1nat
        } else {
            0nat
        }
    }
}

/// The greatest number of nesting marks of a text that `key_name` hands to
/// the parser.
pub const MAX_NESTING: usize = 64;

/// A text has at least as many nesting marks as any of its beginnings.
pub proof fn lemma_nesting_marks_grow(s: Seq<char>, k: int)
    requires
        0 <= k <= s.len(),
    ensures
        nesting_marks(s.take(k)) <= nesting_marks(s),
    decreases s.len() - k,
{
    if k == s.len() {
        assert(s.take(k) =~= s);
    } else {
        lemma_nesting_marks_grow(s, k + 1);
        assert(s.take(k + 1).drop_last() =~= s.take(k));
    }
}

/// Whether `item` has more than `MAX_NESTING` nesting marks.
pub fn nests_too_deep(item: &str) -> (r: bool)
    ensures
        r == (nesting_marks(item@) > MAX_NESTING),
{
    let mut rest = item.chars();
    let mut seen: Ghost<int> = Ghost(0);
    let mut marks: usize = 0;
    let mut state = Scan::Clear;
    let mut next = rest.next();
    while next.is_some()
        invariant
            0 <= seen@ <= item@.len(),
            marks <= MAX_NESTING,
            marks == nesting_marks(item@.take(seen@)),
            state == scan_state(item@.take(seen@)),
            next is None ==> seen@ == item@.len(),
            next matches Some(c) ==> seen@ < item@.len() && c == item@[seen@]
                && IteratorSpec::remaining(&rest) == item@.skip(seen@ + 1),
        decreases item@.len() - seen@,
    {
        let c = next.unwrap();
        let code: u32 = c as u32;
        proof {
            let t = item@.take(seen@ + 1);
            assert(t.last() == c);
            assert(t.drop_last() =~= item@.take(seen@));
        }
        let word = if code < 128 {
            (0x61 <= code && code <= 0x7a) || (0x41 <= code && code <= 0x5a) || (0x30 <= code
                && code <= 0x39) || code == 0x5f
        } else {
            is_alphanumeric(c)
        };
        let blank = code == 0x20 || (0x09 <= code && code <= 0x0d);
        let mark = if word {
            state == Scan::Gap
        } else {
            !blank && code != 0x3a
        };
        if mark {
            if marks == MAX_NESTING {
                proof {
                    lemma_nesting_marks_grow(item@, seen@ + 1);
                }
                return true;
            }
            marks = marks + 1;
        }
        state = if word {
            Scan::Word
        } else if blank && state != Scan::Clear {
            Scan::Gap
        } else {
            Scan::Clear
        };
        proof {
            seen@ = seen@ + 1;
            assert(item@.skip(seen@).len() == item@.len() - seen@);
            if seen@ < item@.len() {
                assert(item@.skip(seen@)[0] == item@[seen@]);
                assert(item@.skip(seen@).drop_first() =~= item@.skip(seen@ + 1));
            }
        }
        next = rest.next();
    }
    proof {
        assert(item@.take(seen@) =~= item@);
    }
    false
}

/// Parses `source` with `syn::parse_str` as a `syn::Expr` and, where the
/// outcome is a path expression, hands out the identifier of each of its
/// segments as text, in order; `None` where the outcome is no path
/// expression. Nothing is claimed of the outcome: the grammar is that
/// parser's, and the lexer under it is its own in an ordinary process and
/// the compiler's inside a procedural macro. The parser goes deeper with
/// every nesting mark, so a text with many of them is kept from it.
#[verifier::external_body]
fn path_segments(source: &str) -> (r: Option<Vec<String>>)
    requires
        nesting_marks(source@) <= MAX_NESTING,
{
    match syn::parse_str::<syn::Expr>(source) {
        Ok(syn::Expr::Path(e)) => Some(e.path.segments.iter().map(|s| s.ident.to_string()).collect()),
        _ => None,
    }
}

/// The label of the path whose segments have the identifiers `segments`:
/// the last camel part of the last identifier. A path without segments has
/// none.
pub fn label_of_segments(segments: &Vec<String>) -> (r: Option<String>)
    ensures
        segments@.len() == 0 ==> r is None,
        segments@.len() > 0 ==> r is Some && r.unwrap()@ == last_camel_segment_spec(
            segments@.last()@,
        ),
{
    if segments.len() > 0 {
        let last: &String = &segments[segments.len() - 1];
        Some(last_camel_segment(last.as_str()))
    } else {
        None
    }
}

/// The label of the key that the path `item` names: the last camel part of
/// the identifier of the path's last segment, so that `KeyCode::KeyM` is
/// labelled `M`. There is none where `item` is no path expression, which
/// the parser decides, and none where `item` has more than `MAX_NESTING`
/// nesting marks, which keeps the parser from going too deep. A label, where
/// there is one, is the last camel part of an identifier.
pub fn key_name(item: &str) -> (r: Option<String>)
    ensures
        nesting_marks(item@) > MAX_NESTING ==> r is None,
        r is Some ==> exists|ident: Seq<char>| r.unwrap()@ == last_camel_segment_spec(ident),
{
    if nests_too_deep(item) {
        return None;
    }
    match path_segments(item) {
        Some(segments) => {
            let label = label_of_segments(&segments);
            proof {
                if label is Some {
                    assert(label.unwrap()@ == last_camel_segment_spec(segments@.last()@));
                }
            }
            label
        },
        None => None,
    }
}

} // verus!
