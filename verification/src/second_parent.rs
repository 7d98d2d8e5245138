//! Telling a second `parent` apart from other parse errors of a spec's TOML:
//! the error's byte position falls on a line whose key is `parent`, and its
//! message speaks of a duplicate key or of a sequence where one value belongs.

use vstd::prelude::*;
use crate::text::{
    chars_of, find_char, find_char_between, is_whitespace, leading_ws, lemma_find_char, rfind_between,
    rfind_seq, string_of_range, trim_spec, unicode_whitespace,
};

verus! {

/// How many bytes UTF-8 takes for `c`.
pub open spec fn utf8_len(c: char) -> nat {
    let v = c as u32;
    if v < 0x80 {
        1
    } else if v < 0x800 {
        2
    } else if v < 0x10000 {
        3
    } else {
        4
    }
}

/// How many bytes UTF-8 takes for `s`.
pub open spec fn utf8_count(s: Seq<char>) -> nat
    decreases s.len(),
{
    if s.len() == 0 {
        0
    } else {
        utf8_count(s.drop_last()) + utf8_len(s.last())
    }
}

/// Whether byte offset `b` falls between two characters of `s` (or at either
/// end): some prefix of `s` takes exactly `b` bytes.
pub open spec fn on_boundary(s: Seq<char>, b: nat, k: int) -> bool {
    0 <= k <= s.len() && utf8_count(s.take(k)) == b
}

/// The line of `s` around character index `k`: from just after the last
/// newline before it to just before the first newline from it on.
pub open spec fn line_around(s: Seq<char>, k: int) -> Seq<char> {
    let start = match rfind_seq(s.take(k), seq!['\n']) {
        Some(i) => i + 1,
        None => 0,
    };
    let end = match find_char(s.skip(k), '\n') {
        Some(i) => k + i,
        None => s.len() as int,
    };
    s.subrange(start as int, end)
}

/// The source line enclosing byte offset `byte` of `s` (clamped to its
/// length), without its newline; an offset inside a character has no line of
/// its own, and stands for the whole source.
pub open spec fn enclosing_line_spec(s: Seq<char>, byte: nat) -> Seq<char> {
    let b = clamped(s, byte);
    if exists|k: int| on_boundary(s, b, k) {
        line_around(s, choose|k: int| on_boundary(s, b, k))
    } else {
        s
    }
}

/// `byte`, or the byte length of `s` where it lies past the end.
pub open spec fn clamped(s: Seq<char>, byte: nat) -> nat {
    if byte < utf8_count(s) { byte } else { utf8_count(s) }
}

/// Whether `p` occurs in `h`.
pub open spec fn contains_seq(h: Seq<char>, p: Seq<char>) -> bool {
    rfind_seq(h, p) is Some
}

/// The key a line assigns: the line without its leading whitespace, up to
/// its first `=`, trimmed.
pub open spec fn line_key(line: Seq<char>) -> Seq<char> {
    let t = line.skip(leading_ws(line) as int);
    let seg = match find_char(t, '=') {
        Some(i) => t.take(i as int),
        None => t,
    };
    trim_spec(seg)
}

/// Whether a parse error at byte `span` with `message` declares a second
/// parent: its line's key is `parent`, and the message speaks of a duplicate
/// key or of a sequence given for the one value.
pub open spec fn is_second_parent_spec(span: Option<nat>, message: Seq<char>, src: Seq<char>) -> bool {
    match span {
        None => false,
        Some(b) => line_key(enclosing_line_spec(src, b)) == "parent"@ && (contains_seq(message, "duplicate key"@)
            || contains_seq(message, "invalid type: sequence"@)),
    }
}

proof fn lemma_count_take_step(s: Seq<char>, k: int)
    requires
        0 <= k < s.len(),
    ensures
        utf8_count(s.take(k + 1)) == utf8_count(s.take(k)) + utf8_len(s[k]),
{
    assert(s.take(k + 1).drop_last() =~= s.take(k));
}

/// A longer prefix takes more bytes.
proof fn lemma_count_increasing(s: Seq<char>, i: int, j: int)
    requires
        0 <= i < j <= s.len(),
    ensures
        utf8_count(s.take(i)) < utf8_count(s.take(j)),
    decreases j - i,
{
    lemma_count_take_step(s, j - 1);
    if i < j - 1 {
        lemma_count_increasing(s, i, j - 1);
    }
}

/// Any two boundaries with one byte offset are the same index.
proof fn lemma_boundary_unique(s: Seq<char>, b: nat, k1: int, k2: int)
    requires
        on_boundary(s, b, k1),
        on_boundary(s, b, k2),
    ensures
        k1 == k2,
{
    if k1 < k2 {
        lemma_count_increasing(s, k1, k2);
    } else if k2 < k1 {
        lemma_count_increasing(s, k2, k1);
    }
}

/// The UTF-8 length of one character.
fn char_utf8_len(c: char) -> (n: u128)
    ensures
        n == utf8_len(c),
{
    let v = c as u32;
    if v < 0x80 {
        1
    } else if v < 0x800 {
        2
    } else if v < 0x10000 {
        3
    } else {
        4
    }
}

/// The line of `cs` around index `k`.
fn line_around_exec(cs: &Vec<char>, k: usize) -> (r: String)
    requires
        k <= cs@.len(),
    ensures
        r@ == line_around(cs@, k as int),
{
    let n = cs.len();
    let nl: Vec<char> = vec!['\n'];
    proof {
        assert(nl@ =~= seq!['\n']);
        assert(cs@.subrange(0, k as int) =~= cs@.take(k as int));
        assert(cs@.subrange(k as int, n as int) =~= cs@.skip(k as int));
    }
    let start: usize = match rfind_between(cs, &nl, 0, k) {
        Some(i) => i + 1,
        None => 0,
    };
    let end: usize = match find_char_between(cs, '\n', k, n) {
        Some(j) => j,
        None => n,
    };
    proof {
        lemma_find_char(cs@.skip(k as int), '\n');
    }
    string_of_range(cs, start, end)
}

/// The source line enclosing byte offset `byte` of `src` (clamped to its
/// length), without its newline: the whole source when the offset falls
/// inside a character.
pub fn enclosing_line(src: &str, byte: usize) -> (r: String)
    ensures
        r@ == enclosing_line_spec(src@, byte as nat),
{
    let cs = chars_of(src);
    let n = cs.len();
    let ghost s = cs@;
    let mut k: usize = 0;
    let mut acc: u128 = 0;
    while k < n && acc < byte as u128
        invariant
            k <= n,
            n == s.len(),
            s == cs@,
            acc == utf8_count(s.take(k as int)),
            acc <= 4 * k,
            forall|j: int| 0 <= j < k ==> utf8_count(#[trigger] s.take(j)) < byte,
        decreases n - k,
    {
        proof {
            lemma_count_take_step(s, k as int);
        }
        acc = acc + char_utf8_len(cs[k]);
        k = k + 1;
    }
    proof {
        assert(s.take(n as int) =~= s);
    }
    if acc == byte as u128 {
        proof {
            let b = byte as nat;
            assert(on_boundary(s, b, k as int));
            lemma_count_monotone_to_end(s, k as int);
            assert(clamped(s, b) == b);
            let c = choose|j: int| on_boundary(s, b, j);
            lemma_boundary_unique(s, b, k as int, c);
        }
        line_around_exec(&cs, k)
    } else if acc < byte as u128 {
        // The offset lies past the end: it is clamped to the end of the source.
        proof {
            let t = utf8_count(s);
            assert(k == n);
            assert(on_boundary(s, t, n as int));
            assert(clamped(s, byte as nat) == t);
            assert(exists|j: int| on_boundary(s, t, j));
            let c = choose|j: int| on_boundary(s, t, j);
            lemma_boundary_unique(s, t, n as int, c);
            assert(enclosing_line_spec(s, byte as nat) == line_around(s, n as int));
        }
        line_around_exec(&cs, n)
    } else {
        // The offset falls inside the character that ends at `acc`.
        proof {
            let b = byte as nat;
            assert(k > 0);
            lemma_count_monotone_to_end(s, k as int);
            assert(b < utf8_count(s));
            assert forall|j: int| !on_boundary(s, b, j) by {
                if 0 <= j <= s.len() {
                    if j < k {
                    } else if j > k {
                        lemma_count_increasing(s, k as int, j);
                    }
                }
            }
            assert(!(exists|j: int| on_boundary(s, b, j)));
            assert(cs@.subrange(0, n as int) =~= s);
            assert(enclosing_line_spec(s, b) == s);
        }
        string_of_range(&cs, 0, n)
    }
}

/// No prefix takes more bytes than the whole.
proof fn lemma_count_monotone_to_end(s: Seq<char>, k: int)
    requires
        0 <= k <= s.len(),
    ensures
        utf8_count(s.take(k)) <= utf8_count(s),
{
    assert(s.take(s.len() as int) =~= s);
    if k < s.len() {
        lemma_count_increasing(s, k, s.len() as int);
    }
}

/// Whether `pat` occurs in `h`.
fn contains_str(h: &str, pat: &str) -> (r: bool)
    ensures
        r == contains_seq(h@, pat@),
{
    let hc = chars_of(h);
    let pc = chars_of(pat);
    proof {
        assert(hc@.subrange(0, hc@.len() as int) =~= hc@);
    }
    rfind_between(&hc, &pc, 0, hc.len()).is_some()
}

/// The key a line assigns: without leading whitespace, up to its first `=`,
/// trimmed.
fn line_key_exec(line: &String) -> (r: String)
    ensures
        r@ == line_key(line@),
{
    let cs = chars_of(line.as_str());
    let n = cs.len();
    let mut a: usize = 0;
    while a < n && is_whitespace(cs[a])
        invariant
            a <= n,
            n == cs@.len(),
            forall|k: int| 0 <= k < a ==> unicode_whitespace(#[trigger] cs@[k]),
        decreases n - a,
    {
        a = a + 1;
    }
    proof {
        lemma_leading_ws_at(cs@, a as int);
        assert(cs@.subrange(a as int, n as int) =~= cs@.skip(a as int));
    }
    let ghost t = cs@.skip(a as int);
    let e: usize = match find_char_between(&cs, '=', a, n) {
        Some(j) => j,
        None => n,
    };
    proof {
        lemma_find_char(t, '=');
        match find_char(t, '=') {
            Some(i) => {
                assert(t.take(i as int) =~= cs@.subrange(a as int, e as int));
            },
            None => {
                assert(t =~= cs@.subrange(a as int, e as int));
            },
        }
    }
    let seg = string_of_range(&cs, a, e);
    crate::text::trim(seg.as_str())
}

/// `leading_ws` counts the whitespace run a scan stopped after.
proof fn lemma_leading_ws_at(s: Seq<char>, i: int)
    requires
        0 <= i <= s.len(),
        forall|k: int| 0 <= k < i ==> unicode_whitespace(#[trigger] s[k]),
        i == s.len() || !unicode_whitespace(s[i]),
    ensures
        leading_ws(s) == i,
    decreases i,
{
    if i > 0 {
        assert forall|k: int| 0 <= k < i - 1 implies unicode_whitespace(#[trigger] s.skip(1)[k]) by {
            assert(s.skip(1)[k] == s[k + 1]);
        }
        if i < s.len() {
            assert(s.skip(1)[i - 1] == s[i]);
        }
        lemma_leading_ws_at(s.skip(1), i - 1);
    }
}

/// Whether a parse error of a spec's TOML, at byte `span` with `message`,
/// declares a second parent (a duplicate `parent` key, or an array given for
/// it). Without a position it is no such error.
pub fn is_second_parent(span: Option<usize>, message: &str, src: &str) -> (r: bool)
    ensures
        r == is_second_parent_spec(match span { Some(b) => Some(b as nat), None => None }, message@, src@),
{
    match span {
        None => false,
        Some(b) => {
            let line = enclosing_line(src, b);
            let key = line_key_exec(&line);
            if !crate::text::str_eq(key.as_str(), "parent") {
                return false;
            }
            contains_str(message, "duplicate key") || contains_str(message, "invalid type: sequence")
        },
    }
}

} // verus!
