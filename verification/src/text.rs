//! Character-level text building blocks shared by every renderer: decimal and
//! zero-padded numbers, left-to-right token replacement, joining, and the
//! conversion of a `&str` into its characters.

use vstd::prelude::*;

verus! {

/// The character for a single decimal digit.
pub open spec fn digit_char(d: nat) -> char {
    if d == 0 { '0' }
    else if d == 1 { '1' }
    else if d == 2 { '2' }
    else if d == 3 { '3' }
    else if d == 4 { '4' }
    else if d == 5 { '5' }
    else if d == 6 { '6' }
    else if d == 7 { '7' }
    else if d == 8 { '8' }
    else { '9' }
}

/// The shortest decimal spelling of `n` (no sign, no leading zeros; `0` is `"0"`).
pub open spec fn decimal(n: nat) -> Seq<char>
    decreases n,
{
    if n < 10 {
        seq![digit_char(n)]
    } else {
        decimal(n / 10).push(digit_char(n % 10))
    }
}

/// `n` in decimal, left-padded with `0` to at least `width` characters.
pub open spec fn zero_padded(n: nat, width: nat) -> Seq<char> {
    let d = decimal(n);
    if d.len() >= width {
        d
    } else {
        Seq::new((width - d.len()) as nat, |i: int| '0') + d
    }
}

/// Appends one character to a `String`.
#[verifier::external_body]
pub(crate) fn push_char(s: &mut String, c: char)
    ensures
        final(s)@ == old(s)@.push(c),
{
    s.push(c);
}

/// The character for the digit `d` (`d < 10`).
pub fn digit_to_char(d: u64) -> (c: char)
    requires
        d < 10,
    ensures
        c == digit_char(d as nat),
{
    if d == 0 { '0' }
    else if d == 1 { '1' }
    else if d == 2 { '2' }
    else if d == 3 { '3' }
    else if d == 4 { '4' }
    else if d == 5 { '5' }
    else if d == 6 { '6' }
    else if d == 7 { '7' }
    else if d == 8 { '8' }
    else { '9' }
}

/// The decimal spelling of `n`, as `n.to_string()` gives it.
pub fn decimal_string(n: u64) -> (s: String)
    ensures
        s@ == decimal(n as nat),
    decreases n,
{
    if n < 10 {
        let mut s = String::new();
        push_char(&mut s, digit_to_char(n));
        s
    } else {
        let mut s = decimal_string(n / 10);
        push_char(&mut s, digit_to_char(n % 10));
        s
    }
}

/// `n` left-padded with zeros to at least `width` characters, as
/// `format!("{n:0width$}")` gives it.
pub fn zero_padded_string(n: u64, width: usize) -> (s: String)
    ensures
        s@ == zero_padded(n as nat, width as nat),
{
    let d = decimal_string(n);
    let dl = d.as_str().unicode_len();
    if dl >= width {
        d
    } else {
        let mut s = String::new();
        let mut i: usize = 0;
        while i < width - dl
            invariant
                i <= width - dl,
                s@ == Seq::new(i as nat, |k: int| '0'),
            decreases width - dl - i,
        {
            push_char(&mut s, '0');
            i = i + 1;
            assert(s@ =~= Seq::new(i as nat, |k: int| '0'));
        }
        s.append(d.as_str());
        s
    }
}

/// The characters of `s`, in order.
pub fn chars_of(s: &str) -> (v: Vec<char>)
    ensures
        v@ == s@,
{
    let mut v: Vec<char> = Vec::new();
    for c in it: s.chars()
        invariant
            v@ == it.seq().take(it.index() as int),
            it.seq() == s@,
    {
        v.push(c);
    }
    v
}

/// The `String` spelled by `cs`.
pub fn string_of(cs: &Vec<char>) -> (s: String)
    ensures
        s@ == cs@,
{
    let mut s = String::new();
    let mut i: usize = 0;
    while i < cs.len()
        invariant
            i <= cs.len(),
            s@ == cs@.take(i as int),
        decreases cs.len() - i,
    {
        push_char(&mut s, cs[i]);
        i = i + 1;
        assert(s@ =~= cs@.take(i as int));
    }
    assert(cs@.take(cs.len() as int) =~= cs@);
    s
}

/// The `String` spelled by `cs[a..b]`.
pub fn string_of_range(cs: &Vec<char>, a: usize, b: usize) -> (s: String)
    requires
        a <= b <= cs@.len(),
    ensures
        s@ == cs@.subrange(a as int, b as int),
{
    let mut s = String::new();
    let mut i: usize = a;
    while i < b
        invariant
            a <= i <= b,
            b <= cs@.len(),
            s@ == cs@.subrange(a as int, i as int),
        decreases b - i,
    {
        push_char(&mut s, cs[i]);
        i = i + 1;
        assert(s@ =~= cs@.subrange(a as int, i as int));
    }
    s
}

/// The index of the first `c` in `s`, if any.
pub open spec fn find_char(s: Seq<char>, c: char) -> Option<nat>
    decreases s.len(),
{
    if s.len() == 0 {
        None
    } else if s[0] == c {
        Some(0)
    } else {
        match find_char(s.skip(1), c) {
            Some(i) => Some(i + 1),
            None => None,
        }
    }
}

/// `find_char` gives the first occurrence, and `None` only when there is none.
pub proof fn lemma_find_char(s: Seq<char>, c: char)
    ensures
        match find_char(s, c) {
            Some(i) => i < s.len() && s[i as int] == c && forall|k: int| 0 <= k < i ==> s[k] != c,
            None => forall|k: int| 0 <= k < s.len() ==> s[k] != c,
        },
    decreases s.len(),
{
    if s.len() > 0 && s[0] != c {
        lemma_find_char(s.skip(1), c);
        assert forall|k: int| 1 <= k < s.len() implies s[k] == s.skip(1)[k - 1] by {}
    }
}

/// The start of the last occurrence of `p` in `s`, if any.
pub open spec fn rfind_seq(s: Seq<char>, p: Seq<char>) -> Option<nat>
    decreases s.len(),
{
    if s.len() < p.len() {
        None
    } else if s.subrange(s.len() - p.len(), s.len() as int) == p {
        Some((s.len() - p.len()) as nat)
    } else if s.len() == 0 {
        None
    } else {
        rfind_seq(s.drop_last(), p)
    }
}

/// `rfind_seq` gives the last occurrence, and `None` only when there is none.
pub proof fn lemma_rfind_seq(s: Seq<char>, p: Seq<char>)
    ensures
        match rfind_seq(s, p) {
            Some(j) => j + p.len() <= s.len() && s.subrange(j as int, (j + p.len()) as int) == p
                && forall|k: int| j < k && k + p.len() <= s.len() ==> #[trigger] s.subrange(k, k + p.len()) != p,
            None => forall|k: int| 0 <= k && k + p.len() <= s.len() ==> #[trigger] s.subrange(k, k + p.len()) != p,
        },
    decreases s.len(),
{
    if s.len() >= p.len() && s.subrange(s.len() - p.len(), s.len() as int) != p && s.len() > 0 {
        let d = s.drop_last();
        lemma_rfind_seq(d, p);
        assert forall|k: int| 0 <= k && k + p.len() <= d.len() implies #[trigger] d.subrange(k, k + p.len())
            == s.subrange(k, k + p.len()) by {
            assert(d.subrange(k, k + p.len()) =~= s.subrange(k, k + p.len()));
        }
        let last = s.len() - p.len();
        assert(s.subrange(last, last + p.len()) != p);
        match rfind_seq(d, p) {
            Some(j) => {
                assert(d.subrange(j as int, (j + p.len()) as int) == s.subrange(j as int, (j + p.len()) as int));
                assert forall|k: int| j < k && k + p.len() <= s.len() implies #[trigger] s.subrange(k, k + p.len()) != p by {
                    if k + p.len() <= d.len() {
                        assert(d.subrange(k, k + p.len()) == s.subrange(k, k + p.len()));
                    }
                }
            },
            None => {
                assert forall|k: int| 0 <= k && k + p.len() <= s.len() implies #[trigger] s.subrange(k, k + p.len()) != p by {
                    if k + p.len() <= d.len() {
                        assert(d.subrange(k, k + p.len()) == s.subrange(k, k + p.len()));
                    }
                }
            },
        }
    }
}

/// The index of the first `c` in `cs[a..b]`.
pub fn find_char_between(cs: &Vec<char>, c: char, a: usize, b: usize) -> (r: Option<usize>)
    requires
        a <= b <= cs@.len(),
    ensures
        match r {
            Some(j) => a <= j < b && find_char(cs@.subrange(a as int, b as int), c) == Some((j - a) as nat),
            None => find_char(cs@.subrange(a as int, b as int), c) == None::<nat>,
        },
{
    let ghost s = cs@.subrange(a as int, b as int);
    let mut j: usize = a;
    while j < b
        invariant
            a <= j <= b,
            b <= cs@.len(),
            s == cs@.subrange(a as int, b as int),
            forall|k: int| a <= k < j ==> cs@[k] != c,
        decreases b - j,
    {
        if cs[j] == c {
            proof {
                lemma_find_char(s, c);
                assert(s[(j - a) as int] == c);
                assert forall|k: int| 0 <= k < j - a implies s[k] != c by {
                    assert(s[k] == cs@[a + k]);
                }
            }
            return Some(j);
        }
        j = j + 1;
    }
    proof {
        lemma_find_char(s, c);
        assert forall|k: int| 0 <= k < s.len() implies s[k] != c by {
            assert(s[k] == cs@[a + k]);
        }
    }
    None
}

/// The start of the last occurrence of `pc` in `cs[a..b]`.
pub fn rfind_between(cs: &Vec<char>, pc: &Vec<char>, a: usize, b: usize) -> (r: Option<usize>)
    requires
        a <= b <= cs@.len(),
    ensures
        match r {
            Some(j) => a <= j && j + pc@.len() <= b
                && rfind_seq(cs@.subrange(a as int, b as int), pc@) == Some((j - a) as nat),
            None => rfind_seq(cs@.subrange(a as int, b as int), pc@) == None::<nat>,
        },
{
    let ghost s = cs@.subrange(a as int, b as int);
    let ghost p = pc@;
    proof {
        lemma_rfind_seq(s, p);
    }
    if pc.len() > b - a {
        return None;
    }
    let mut j: usize = b - pc.len();
    loop
        invariant
            a <= j,
            j + p.len() <= b,
            b <= cs@.len(),
            s == cs@.subrange(a as int, b as int),
            p == pc@,
            match rfind_seq(s, p) {
                Some(i) => i + p.len() <= s.len() && s.subrange(i as int, (i + p.len()) as int) == p
                    && forall|k: int| i < k && k + p.len() <= s.len() ==> #[trigger] s.subrange(k, k + p.len()) != p,
                None => forall|k: int| 0 <= k && k + p.len() <= s.len() ==> #[trigger] s.subrange(k, k + p.len()) != p,
            },
            forall|k: int| j - a < k && k + p.len() <= s.len() ==> #[trigger] s.subrange(k, k + p.len()) != p,
        decreases j,
    {
        let m = matches_at(cs, pc, j);
        assert(s.subrange(j - a, j - a + p.len()) =~= cs@.subrange(j as int, j + p.len()));
        if m {
            return Some(j);
        }
        if j == a {
            return None;
        }
        j = j - 1;
    }
}

/// Every non-overlapping occurrence of `p` in `h`, scanned left to right,
/// replaced by `r` — what `str::replace` does for a non-empty pattern.
pub open spec fn replace_all_spec(h: Seq<char>, p: Seq<char>, r: Seq<char>) -> Seq<char>
    decreases h.len(),
{
    if p.len() == 0 || h.len() < p.len() {
        h
    } else if h.subrange(0, p.len() as int) == p {
        r + replace_all_spec(h.skip(p.len() as int), p, r)
    } else {
        seq![h[0]] + replace_all_spec(h.skip(1), p, r)
    }
}

/// Whether `pc` occurs in `hc` starting at index `i`.
pub fn matches_at(hc: &Vec<char>, pc: &Vec<char>, i: usize) -> (b: bool)
    requires
        i <= hc.len(),
    ensures
        b == (pc.len() <= hc.len() - i && hc@.subrange(i as int, i + pc.len()) == pc@),
{
    if pc.len() > hc.len() - i {
        return false;
    }
    let mut k: usize = 0;
    while k < pc.len()
        invariant
            pc.len() <= hc.len() - i,
            k <= pc.len(),
            forall|j: int| 0 <= j < k ==> hc@[i + j] == pc@[j],
        decreases pc.len() - k,
    {
        if hc[i + k] != pc[k] {
            assert(hc@.subrange(i as int, i + pc.len())[k as int] != pc@[k as int]);
            return false;
        }
        k = k + 1;
    }
    assert(hc@.subrange(i as int, i + pc.len()) =~= pc@);
    true
}

/// `h` with every occurrence of the non-empty `p` replaced by `r`, as
/// `h.replace(p, r)` gives it.
pub fn replace_all(h: &str, p: &str, r: &str) -> (out: String)
    requires
        p@.len() > 0,
    ensures
        out@ == replace_all_spec(h@, p@, r@),
{
    let hc = chars_of(h);
    let pc = chars_of(p);
    let mut out = String::new();
    let mut i: usize = 0;
    assert(hc@.skip(0) =~= hc@);
    while i < hc.len()
        invariant
            i <= hc.len(),
            hc@ == h@,
            pc@ == p@,
            pc@.len() > 0,
            out@ + replace_all_spec(hc@.skip(i as int), pc@, r@) == replace_all_spec(hc@, pc@, r@),
        decreases hc.len() - i,
    {
        let ghost rest = hc@.skip(i as int);
        if matches_at(&hc, &pc, i) {
            assert(rest.subrange(0, pc@.len() as int) =~= hc@.subrange(i as int, i + pc@.len()));
            assert(rest.skip(pc@.len() as int) =~= hc@.skip(i + pc@.len()));
            out.append(r);
            i = i + pc.len();
            assert(out@ + replace_all_spec(hc@.skip(i as int), pc@, r@) =~= replace_all_spec(hc@, pc@, r@));
        } else {
            let c = hc[i];
            proof {
                if rest.len() >= pc@.len() {
                    assert(rest.subrange(0, pc@.len() as int) =~= hc@.subrange(i as int, i + pc@.len()));
                }
                assert(rest.skip(1) =~= hc@.skip(i + 1));
                if rest.len() < pc@.len() {
                    assert(rest =~= seq![c] + rest.skip(1));
                    assert(rest.skip(1).len() < pc@.len());
                }
            }
            push_char(&mut out, c);
            i = i + 1;
            assert(out@ + replace_all_spec(hc@.skip(i as int), pc@, r@) =~= replace_all_spec(hc@, pc@, r@));
        }
    }
    assert(hc@.skip(i as int) =~= Seq::<char>::empty());
    out
}

/// `parts` joined with `sep` between neighbours.
pub open spec fn join_spec(parts: Seq<Seq<char>>, sep: Seq<char>) -> Seq<char>
    decreases parts.len(),
{
    if parts.len() == 0 {
        Seq::empty()
    } else if parts.len() == 1 {
        parts[0]
    } else {
        join_spec(parts.drop_last(), sep) + sep + parts.last()
    }
}

/// The pieces laid end to end.
pub open spec fn concat_all(parts: Seq<Seq<char>>) -> Seq<char>
    decreases parts.len(),
{
    if parts.len() == 0 {
        Seq::empty()
    } else {
        concat_all(parts.drop_last()) + parts.last()
    }
}

/// The views of a list of strings.
pub open spec fn views(v: Seq<String>) -> Seq<Seq<char>> {
    v.map_values(|s: String| s@)
}

/// `parts` joined with `sep`, as `parts.join(sep)` gives it.
pub fn join(parts: &Vec<String>, sep: &str) -> (out: String)
    ensures
        out@ == join_spec(views(parts@), sep@),
{
    let mut out = String::new();
    let mut i: usize = 0;
    while i < parts.len()
        invariant
            i <= parts.len(),
            out@ == join_spec(views(parts@).take(i as int), sep@),
        decreases parts.len() - i,
    {
        if i > 0 {
            out.append(sep);
        }
        out.append(parts[i].as_str());
        i = i + 1;
        assert(views(parts@).take(i as int).drop_last() =~= views(parts@).take(i - 1));
    }
    assert(views(parts@).take(parts.len() as int) =~= views(parts@));
    out
}

/// A copy of a list of strings.
pub fn copy_strings(v: &Vec<String>) -> (r: Vec<String>)
    ensures
        r@ == v@,
{
    let mut r: Vec<String> = Vec::new();
    let mut i: usize = 0;
    while i < v.len()
        invariant
            i <= v@.len(),
            r@ == v@.take(i as int),
        decreases v.len() - i,
    {
        r.push(v[i].clone());
        i = i + 1;
        assert(r@ =~= v@.take(i as int));
    }
    assert(v@.take(v@.len() as int) =~= v@);
    r
}

/// Whether two character vectors are equal.
pub fn chars_eq(a: &Vec<char>, b: &Vec<char>) -> (r: bool)
    ensures
        r == (a@ == b@),
{
    if a.len() != b.len() {
        return false;
    }
    let mut i: usize = 0;
    while i < a.len()
        invariant
            a.len() == b.len(),
            i <= a.len(),
            forall|j: int| 0 <= j < i ==> a@[j] == b@[j],
        decreases a.len() - i,
    {
        if a[i] != b[i] {
            return false;
        }
        i = i + 1;
    }
    assert(a@ =~= b@);
    true
}

/// Whether two strings hold the same characters (`a == b`).
pub fn str_eq(a: &str, b: &str) -> (r: bool)
    ensures
        r == (a@ == b@),
{
    let ac = chars_of(a);
    let bc = chars_of(b);
    chars_eq(&ac, &bc)
}

/// Whether `p` is a prefix of `s`.
pub open spec fn has_prefix(s: Seq<char>, p: Seq<char>) -> bool {
    p.len() <= s.len() && s.take(p.len() as int) == p
}

/// Whether `p` occurs in `s` starting at index `i`, checked on vectors.
pub fn prefix_at(s: &Vec<char>, p: &str, i: usize) -> (b: bool)
    requires
        i <= s.len(),
    ensures
        b == has_prefix(s@.skip(i as int), p@),
{
    let pc = chars_of(p);
    let r = matches_at(s, &pc, i);
    proof {
        if pc@.len() <= s@.len() - i {
            assert(s@.skip(i as int).take(pc@.len() as int) =~= s@.subrange(i as int, i + pc@.len()));
        }
    }
    r
}

/// An ASCII decimal digit.
pub open spec fn is_digit(c: char) -> bool {
    '0' <= c && c <= '9'
}

/// Every character of `s` is an ASCII decimal digit.
pub open spec fn all_digits(s: Seq<char>) -> bool {
    forall|i: int| 0 <= i < s.len() ==> is_digit(#[trigger] s[i])
}

/// The value of a run of decimal digits (leading zeros allowed).
pub open spec fn digits_value(s: Seq<char>) -> nat
    decreases s.len(),
{
    if s.len() == 0 {
        0
    } else {
        digits_value(s.drop_last()) * 10 + ((s.last() as int - '0' as int) as nat)
    }
}

/// What `str::parse::<u32>` accepts: an optional `+`, then one or more ASCII
/// digits whose value fits in a `u32`.
pub open spec fn parse_u32_spec(s: Seq<char>) -> Option<u32> {
    let body = if s.len() > 0 && s[0] == '+' { s.skip(1) } else { s };
    if body.len() > 0 && all_digits(body) && digits_value(body) <= u32::MAX {
        Some(digits_value(body) as u32)
    } else {
        None
    }
}

/// Parses the characters of `cs` from `start` on as a `u32`, as
/// `str::parse::<u32>` does.
pub fn parse_u32_from(cs: &Vec<char>, start: usize) -> (r: Option<u32>)
    requires
        start <= cs.len(),
    ensures
        r == parse_u32_spec(cs@.skip(start as int)),
{
    let ghost s = cs@.skip(start as int);
    let mut i = start;
    if i < cs.len() && cs[i] == '+' {
        i = i + 1;
    }
    let ghost body = cs@.skip(i as int);
    assert(s.len() > 0 && s[0] == '+' ==> body =~= s.skip(1));
    assert(!(s.len() > 0 && s[0] == '+') ==> body =~= s);
    if i >= cs.len() {
        return None;
    }
    let cap: u64 = 4294967296;
    let mut acc: u64 = 0;
    let mut k = i;
    while k < cs.len()
        invariant
            i <= k <= cs.len(),
            body == cs@.skip(i as int),
            all_digits(cs@.subrange(i as int, k as int)),
            acc as int == if digits_value(cs@.subrange(i as int, k as int)) < cap {
                digits_value(cs@.subrange(i as int, k as int)) as int
            } else {
                cap as int
            },
            cap == 4294967296,
            s == cs@.skip(start as int),
            s.len() > 0 && s[0] == '+' ==> body == s.skip(1),
            !(s.len() > 0 && s[0] == '+') ==> body == s,
        decreases cs.len() - k,
    {
        let c = cs[k];
        if !('0' <= c && c <= '9') {
            assert(body[k - i] == c);
            assert(!is_digit(body[k - i]));
            assert(!all_digits(body));
            return None;
        }
        let d = (c as u64) - ('0' as u64);
        let ghost pre = cs@.subrange(i as int, k as int);
        let ghost post = cs@.subrange(i as int, k + 1);
        assert(post.drop_last() =~= pre);
        assert(post.last() == c);
        if acc >= cap {
            acc = cap;
        } else {
            let next = acc * 10 + d;
            acc = if next >= cap { cap } else { next };
        }
        k = k + 1;
        assert(all_digits(cs@.subrange(i as int, k as int)));
    }
    assert(cs@.subrange(i as int, cs.len() as int) =~= body);
    if acc >= cap {
        None
    } else {
        Some(acc as u32)
    }
}

/// Parses `s` as a `u32`, as `s.parse::<u32>().ok()` does.
pub fn parse_u32(s: &str) -> (r: Option<u32>)
    ensures
        r == parse_u32_spec(s@),
{
    let cs = chars_of(s);
    assert(cs@.skip(0) =~= cs@);
    parse_u32_from(&cs, 0)
}

/// A decimal digit character stands for its digit.
pub proof fn lemma_digit_char(d: nat)
    requires
        d < 10,
    ensures
        is_digit(digit_char(d)),
        digit_char(d) as int - '0' as int == d,
{
}

/// The decimal spelling is non-empty, made of digits, and worth `n`.
pub proof fn lemma_decimal(n: nat)
    ensures
        decimal(n).len() >= 1,
        all_digits(decimal(n)),
        digits_value(decimal(n)) == n,
    decreases n,
{
    if n < 10 {
        lemma_digit_char(n);
        assert(decimal(n).drop_last() =~= Seq::<char>::empty());
        assert(digits_value(Seq::<char>::empty()) == 0);
        assert(decimal(n).last() == digit_char(n));
        assert(digits_value(decimal(n)) == digits_value(decimal(n).drop_last()) * 10
            + ((decimal(n).last() as int - '0' as int) as nat));
    } else {
        lemma_decimal(n / 10);
        lemma_digit_char(n % 10);
        let d = decimal(n);
        assert(d.drop_last() =~= decimal(n / 10));
        assert(d.last() == digit_char(n % 10));
        assert(n == (n / 10) * 10 + n % 10) by (nonlinear_arith);
        assert(digits_value(d) == digits_value(decimal(n / 10)) * 10 + (n % 10));
        assert forall|i: int| 0 <= i < d.len() implies is_digit(#[trigger] d[i]) by {
            if i < d.len() - 1 {
                assert(d[i] == decimal(n / 10)[i]);
            }
        }
    }
}

/// A run of zeros is worth nothing.
proof fn lemma_zeros_value(k: nat)
    ensures
        digits_value(Seq::new(k, |i: int| '0')) == 0,
    decreases k,
{
    if k > 0 {
        lemma_zeros_value((k - 1) as nat);
        assert(Seq::new(k, |i: int| '0').drop_last() =~= Seq::new((k - 1) as nat, |i: int| '0'));
    }
}

/// Leading zeros do not change the value of a run of digits.
proof fn lemma_leading_zeros(k: nat, s: Seq<char>)
    ensures
        digits_value(Seq::new(k, |i: int| '0') + s) == digits_value(s),
    decreases s.len(),
{
    let z = Seq::new(k, |i: int| '0');
    if s.len() == 0 {
        assert(z + s =~= z);
        lemma_zeros_value(k);
    } else {
        lemma_leading_zeros(k, s.drop_last());
        assert((z + s).drop_last() =~= z + s.drop_last());
    }
}

/// The zero-padded spelling is non-empty, made of digits, starts with a
/// digit, and is worth `n`.
pub proof fn lemma_zero_padded(n: nat, width: nat)
    ensures
        zero_padded(n, width).len() >= 1,
        all_digits(zero_padded(n, width)),
        digits_value(zero_padded(n, width)) == n,
{
    lemma_decimal(n);
    let d = decimal(n);
    if d.len() < width {
        let z = Seq::new((width - d.len()) as nat, |i: int| '0');
        lemma_leading_zeros((width - d.len()) as nat, d);
        let p = z + d;
        assert forall|i: int| 0 <= i < p.len() implies is_digit(#[trigger] p[i]) by {
            if i >= z.len() {
                assert(p[i] == d[i - z.len()]);
            }
        }
    }
}

/// Any run of digits that is worth at most `u32::MAX` parses back to its value.
pub proof fn lemma_parse_digits(s: Seq<char>)
    requires
        s.len() >= 1,
        all_digits(s),
        digits_value(s) <= u32::MAX,
    ensures
        parse_u32_spec(s) == Some(digits_value(s) as u32),
{
    assert(is_digit(s[0]));
}

/// Strict lexicographic order on character sequences, by code point — the
/// order of `String`'s `Ord` (UTF-8 preserves code point order).
pub open spec fn lex_lt(a: Seq<char>, b: Seq<char>) -> bool
    decreases a.len(),
{
    if a.len() == 0 {
        b.len() > 0
    } else if b.len() == 0 {
        false
    } else if (a[0] as int) < (b[0] as int) {
        true
    } else if a[0] == b[0] {
        lex_lt(a.skip(1), b.skip(1))
    } else {
        false
    }
}

/// The order is irreflexive and total: exactly one of `a < b`, `a == b`,
/// `b < a` holds.
pub proof fn lemma_lex_trichotomy(a: Seq<char>, b: Seq<char>)
    ensures
        lex_lt(a, b) || a == b || lex_lt(b, a),
        !(lex_lt(a, b) && lex_lt(b, a)),
        !lex_lt(a, a),
    decreases a.len(),
{
    if a.len() > 0 && b.len() > 0 {
        lemma_lex_trichotomy(a.skip(1), b.skip(1));
        if a[0] == b[0] && a.skip(1) == b.skip(1) {
            assert(a =~= seq![a[0]] + a.skip(1));
            assert(b =~= seq![b[0]] + b.skip(1));
        }
    } else if a.len() > 0 {
        lemma_lex_trichotomy(a.skip(1), a.skip(1));
    } else if b.len() > 0 {
        assert(a =~= Seq::<char>::empty());
    } else {
        assert(a =~= b);
    }
    if a.len() > 0 {
        lemma_lex_irreflexive(a);
    }
}

/// No sequence precedes itself.
proof fn lemma_lex_irreflexive(a: Seq<char>)
    ensures
        !lex_lt(a, a),
    decreases a.len(),
{
    if a.len() > 0 {
        lemma_lex_irreflexive(a.skip(1));
    }
}

/// The order is transitive.
pub proof fn lemma_lex_transitive(a: Seq<char>, b: Seq<char>, c: Seq<char>)
    requires
        lex_lt(a, b),
        lex_lt(b, c),
    ensures
        lex_lt(a, c),
    decreases a.len(),
{
    if a.len() > 0 && b.len() > 0 && c.len() > 0 && a[0] == b[0] && b[0] == c[0] {
        lemma_lex_transitive(a.skip(1), b.skip(1), c.skip(1));
    }
}

/// Whether `a` sorts strictly before `b` (`a < b` on `String`).
pub fn str_lt(a: &str, b: &str) -> (r: bool)
    ensures
        r == lex_lt(a@, b@),
{
    let ac = chars_of(a);
    let bc = chars_of(b);
    let mut i: usize = 0;
    assert(a@.skip(0) =~= a@);
    assert(b@.skip(0) =~= b@);
    while i < ac.len() && i < bc.len()
        invariant
            i <= ac.len(),
            i <= bc.len(),
            ac@ == a@,
            bc@ == b@,
            lex_lt(a@, b@) == lex_lt(a@.skip(i as int), b@.skip(i as int)),
        decreases ac.len() - i,
    {
        let ghost sa = a@.skip(i as int);
        let ghost sb = b@.skip(i as int);
        assert(sa[0] == ac@[i as int]);
        assert(sb[0] == bc@[i as int]);
        let x = ac[i];
        let y = bc[i];
        if x < y {
            assert((x as int) < (y as int));
            return true;
        }
        if ac[i] != bc[i] {
            return false;
        }
        assert(sa.skip(1) =~= a@.skip(i + 1));
        assert(sb.skip(1) =~= b@.skip(i + 1));
        i = i + 1;
    }
    let ghost sa = a@.skip(i as int);
    let ghost sb = b@.skip(i as int);
    i == ac.len() && i < bc.len()
}

/// Whether `c` has the Unicode `White_Space` property, as `char::is_whitespace`
/// answers: the 25 code points U+0009–U+000D, U+0020, U+0085, U+00A0,
/// U+1680, U+2000–U+200A, U+2028, U+2029, U+202F, U+205F and U+3000.
pub open spec fn unicode_whitespace(c: char) -> bool {
    let v = c as u32;
    (0x09 <= v && v <= 0x0D) || v == 0x20 || v == 0x85 || v == 0xA0 || v == 0x1680
        || (0x2000 <= v && v <= 0x200A) || v == 0x2028 || v == 0x2029 || v == 0x202F || v == 0x205F
        || v == 0x3000
}

/// `char::is_whitespace`: the answer is the `White_Space` property of `c`.
#[verifier::external_body]
pub(crate) fn is_whitespace(c: char) -> (r: bool)
    ensures
        r == unicode_whitespace(c),
{
    c.is_whitespace()
}

/// How many whitespace characters `s` starts with.
pub open spec fn leading_ws(s: Seq<char>) -> nat
    decreases s.len(),
{
    if s.len() > 0 && unicode_whitespace(s[0]) {
        1 + leading_ws(s.skip(1))
    } else {
        0
    }
}

/// How many whitespace characters `s` ends with.
pub open spec fn trailing_ws(s: Seq<char>) -> nat
    decreases s.len(),
{
    if s.len() > 0 && unicode_whitespace(s.last()) {
        1 + trailing_ws(s.drop_last())
    } else {
        0
    }
}

/// `s` without its leading and trailing whitespace, as `str::trim` gives it.
pub open spec fn trim_spec(s: Seq<char>) -> Seq<char> {
    let rest = s.skip(leading_ws(s) as int);
    rest.take(rest.len() - trailing_ws(rest))
}

proof fn lemma_leading_ws(s: Seq<char>, i: int)
    requires
        0 <= i <= s.len(),
        forall|k: int| 0 <= k < i ==> unicode_whitespace(#[trigger] s[k]),
        i == s.len() || !unicode_whitespace(s[i]),
    ensures
        leading_ws(s) == i,
    decreases i,
{
    if i > 0 {
        lemma_leading_ws(s.skip(1), i - 1);
    }
}

proof fn lemma_trailing_ws(s: Seq<char>, j: int)
    requires
        0 <= j <= s.len(),
        forall|k: int| j <= k < s.len() ==> unicode_whitespace(#[trigger] s[k]),
        j == 0 || !unicode_whitespace(s[j - 1]),
    ensures
        trailing_ws(s) == s.len() - j,
    decreases s.len() - j,
{
    if j < s.len() {
        lemma_trailing_ws(s.drop_last(), j);
    }
}

/// `s` with leading and trailing whitespace removed.
pub fn trim(s: &str) -> (r: String)
    ensures
        r@ == trim_spec(s@),
{
    let cs = chars_of(s);
    let n = cs.len();
    let mut a: usize = 0;
    while a < n && is_whitespace(cs[a])
        invariant
            a <= n,
            n == cs@.len(),
            forall|k: int| 0 <= k < a ==> unicode_whitespace(#[trigger] cs@[k]),
        decreases n - a,
    {
        a = a + 1;
    }
    proof {
        lemma_leading_ws(cs@, a as int);
    }
    let mut b: usize = n;
    while b > a && is_whitespace(cs[b - 1])
        invariant
            a <= b <= n,
            n == cs@.len(),
            forall|k: int| b <= k < n ==> unicode_whitespace(#[trigger] cs@[k]),
        decreases b,
    {
        b = b - 1;
    }
    let ghost rest = cs@.skip(a as int);
    proof {
        assert forall|k: int| b - a <= k < rest.len() implies unicode_whitespace(#[trigger] rest[k]) by {
            assert(rest[k] == cs@[a + k]);
        }
        if b > a {
            assert(rest[b - a - 1] == cs@[b - 1]);
        }
        lemma_trailing_ws(rest, b - a);
        assert(rest.take(rest.len() - trailing_ws(rest)) =~= cs@.subrange(a as int, b as int));
    }
    string_of_range(&cs, a, b)
}

/// `b` appended to the path `a` as `Path::join` does on Unix: an absolute `b`
/// replaces `a`; otherwise a `/` goes between them unless `a` is empty or
/// already ends in one.
pub open spec fn join_path_spec(a: Seq<char>, b: Seq<char>) -> Seq<char> {
    if b.len() > 0 && b[0] == '/' {
        b
    } else if a.len() == 0 || a.last() == '/' {
        a + b
    } else {
        a + "/"@ + b
    }
}

/// The path `b` appended to `a`.
pub fn join_path(a: &str, b: &str) -> (r: String)
    ensures
        r@ == join_path_spec(a@, b@),
{
    let bn = b.unicode_len();
    if bn > 0 && b.get_char(0) == '/' {
        return String::from_str(b);
    }
    let an = a.unicode_len();
    let mut r = String::from_str(a);
    if an > 0 && a.get_char(an - 1) != '/' {
        r.append("/");
    }
    r.append(b);
    r
}

/// The `Debug` rendering of a string: quoted, with escapes.
pub uninterp spec fn debug_quoted(s: Seq<char>) -> Seq<char>;

/// `format!("{s:?}")`: the result is the `Debug` rendering of `s`.
#[verifier::external_body]
pub(crate) fn debug_str(s: &str) -> (r: String)
    ensures
        r@ == debug_quoted(s@),
{
    format!("{s:?}")
}

} // verus!
