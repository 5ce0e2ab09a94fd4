//! Character-level text helpers shared by the rest of the library.
//!
//! Text is reasoned about through its `Seq<char>` view. Byte quantities are
//! the length of the UTF-8 encoding of that view.
use vstd::prelude::*;
use vstd::utf8::encode_utf8;
use vstd::string::StringSliceAdditionalSpecFns;

verus! {

/// Appends one character to a `String`.
#[verifier::external_body]
pub(crate) fn push_char(s: &mut String, c: char)
    ensures
        final(s)@ == old(s)@.push(c),
{
    s.push(c);
}

/// The Unicode `White_Space` property, as `char::is_whitespace` defines it.
pub open spec fn is_ws(c: char) -> bool {
    ||| c == '\t' || c == '\n' || c == '\u{0B}' || c == '\u{0C}' || c == '\r' || c == ' '
    ||| c == '\u{85}' || c == '\u{A0}' || c == '\u{1680}'
    ||| ('\u{2000}' <= c && c <= '\u{200A}')
    ||| c == '\u{2028}' || c == '\u{2029}' || c == '\u{202F}' || c == '\u{205F}'
    ||| c == '\u{3000}'
}

/// Whether `c` is white space.
pub fn char_is_ws(c: char) -> (b: bool)
    ensures
        b == is_ws(c),
{
    c == '\t' || c == '\n' || c == '\u{0B}' || c == '\u{0C}' || c == '\r' || c == ' '
        || c == '\u{85}' || c == '\u{A0}' || c == '\u{1680}' || ('\u{2000}' <= c && c
        <= '\u{200A}') || c == '\u{2028}' || c == '\u{2029}' || c == '\u{202F}' || c
        == '\u{205F}' || c == '\u{3000}'
}

/// Number of bytes in the UTF-8 encoding of one character.
pub open spec fn char_width(c: char) -> nat {
    if (c as u32) <= 0x7F {
        1
    } else if (c as u32) <= 0x7FF {
        2
    } else if (c as u32) <= 0xFFFF {
        3
    } else {
        4
    }
}

/// Number of bytes in the UTF-8 encoding of a character sequence.
pub open spec fn byte_len(s: Seq<char>) -> nat
    decreases s.len(),
{
    if s.len() == 0 {
        0
    } else {
        byte_len(s.drop_last()) + char_width(s.last())
    }
}

/// Width in bytes of the UTF-8 encoding of `c`.
pub fn utf8_width(c: char) -> (w: usize)
    ensures
        w == char_width(c),
        1 <= w <= 4,
{
    let v: u32 = c as u32;
    if v <= 0x7F {
        1
    } else if v <= 0x7FF {
        2
    } else if v <= 0xFFFF {
        3
    } else {
        4
    }
}

pub proof fn lemma_byte_len_concat(a: Seq<char>, b: Seq<char>)
    ensures
        byte_len(a + b) == byte_len(a) + byte_len(b),
    decreases b.len(),
{
    if b.len() == 0 {
        assert(a + b =~= a);
    } else {
        lemma_byte_len_concat(a, b.drop_last());
        assert((a + b).drop_last() =~= a + b.drop_last());
    }
}

pub proof fn lemma_byte_len_push(a: Seq<char>, c: char)
    ensures
        byte_len(a.push(c)) == byte_len(a) + char_width(c),
{
    assert(a.push(c).drop_last() =~= a);
}

pub proof fn lemma_byte_len_bounds(a: Seq<char>)
    ensures
        a.len() <= byte_len(a) <= 4 * a.len(),
    decreases a.len(),
{
    if a.len() > 0 {
        lemma_byte_len_bounds(a.drop_last());
    }
}

pub proof fn lemma_byte_len_prefix_mono(a: Seq<char>, i: int, j: int)
    requires
        0 <= i <= j <= a.len(),
    ensures
        byte_len(a.take(i)) <= byte_len(a.take(j)),
    decreases j - i,
{
    if i < j {
        lemma_byte_len_prefix_mono(a, i, j - 1);
        assert(a.take(j) =~= a.take(j - 1).push(a[j - 1]));
        lemma_byte_len_push(a.take(j - 1), a[j - 1]);
    }
}

/// The encoded UTF-8 length agrees with `byte_len`.
pub proof fn lemma_encode_len(s: Seq<char>)
    ensures
        encode_utf8(s).len() == byte_len(s),
    decreases s.len(),
{
    if s.len() > 0 {
        lemma_encode_len(s.drop_first());
        let c = s[0];
        vstd::utf8::char_is_scalar(c);
        assert(vstd::utf8::encode_scalar(c as u32).len() == char_width(c));
        assert(s =~= seq![c] + s.drop_first());
        lemma_byte_len_concat(seq![c], s.drop_first());
        assert(seq![c].drop_last() =~= Seq::<char>::empty());
        assert(byte_len(Seq::<char>::empty()) == 0);
        assert(byte_len(seq![c]) == char_width(c));
        assert(encode_utf8(s) == vstd::utf8::encode_scalar(s[0] as u32) + encode_utf8(
            s.drop_first(),
        ));
    }
}

/// UTF-8 byte length of a string slice.
pub fn str_byte_len(s: &str) -> (n: usize)
    ensures
        n == byte_len(s@),
{
    proof {
        lemma_encode_len(s@);
    }
    let b = s.as_bytes();
    proof {
        vstd::slice::axiom_spec_len(b);
    }
    b.len()
}

/// Collects the characters of a string slice.
pub fn to_chars(s: &str) -> (v: Vec<char>)
    ensures
        v@ == s@,
{
    let mut v: Vec<char> = Vec::new();
    for c in it: s.chars()
        invariant
            v@ == it.seq().take(it.index() as int),
            it.seq() == s@,
        ensures
            v@ == s@,
    {
        v.push(c);
        proof {
            assert(it.seq().take(it.index() as int + 1) =~= v@);
        }
    }
    v
}

/// Builds a string from characters `v[from..to]`.
pub fn from_chars_range(v: &Vec<char>, from: usize, to: usize) -> (s: String)
    requires
        from <= to <= v.len(),
    ensures
        s@ == v@.subrange(from as int, to as int),
{
    let mut s = String::new();
    let mut i: usize = from;
    while i < to
        invariant
            from <= i <= to <= v.len(),
            s@ == v@.subrange(from as int, i as int),
        decreases to - i,
    {
        push_char(&mut s, v[i]);
        i = i + 1;
        proof {
            assert(s@ =~= v@.subrange(from as int, i as int));
        }
    }
    s
}

/// Builds a string from a character vector.
pub fn from_chars(v: &Vec<char>) -> (s: String)
    ensures
        s@ == v@,
{
    let s = from_chars_range(v, 0, v.len());
    proof {
        assert(v@.subrange(0, v@.len() as int) =~= v@);
    }
    s
}

/// Appends a string slice to a string.
pub fn push_str(s: &mut String, t: &str)
    ensures
        final(s)@ == old(s)@ + t@,
{
    s.append(t);
}

/// Copies a string slice into a fresh string.
pub fn to_owned_string(t: &str) -> (s: String)
    ensures
        s@ == t@,
{
    t.to_owned()
}

/// The concatenation of two string slices.
pub fn concat(a: &str, b: &str) -> (s: String)
    ensures
        s@ == a@ + b@,
{
    let mut s = to_owned_string(a);
    push_str(&mut s, b);
    s
}

/// Pushes a string onto a list of strings.
pub fn push_line(lines: &mut Vec<String>, line: String)
    ensures
        strings_view(final(lines)@) == strings_view(old(lines)@).push(line@),
{
    proof {
        lemma_strings_view_push(lines@, line);
    }
    lines.push(line);
}

/// Appends all strings of `more` to `lines`.
pub fn extend_lines(lines: &mut Vec<String>, more: Vec<String>)
    ensures
        strings_view(final(lines)@) == strings_view(old(lines)@) + strings_view(more@),
{
    let ghost start = strings_view(lines@);
    let mut i: usize = 0;
    while i < more.len()
        invariant
            i <= more.len(),
            strings_view(lines@) == start + strings_view(more@.take(i as int)),
        decreases more.len() - i,
    {
        proof {
            assert(strings_view(more@.take(i + 1)) =~= strings_view(more@.take(i as int)).push(more@[i as int]@));
        }
        push_line(lines, clone_string(&more[i]));
        i = i + 1;
    }
    proof {
        assert(more@.take(more.len() as int) =~= more@);
    }
}

/// Whether some string of `v` equals `s`.
pub fn contains_text(v: &Vec<String>, s: &str) -> (r: bool)
    ensures
        r == strings_view(v@).contains(s@),
{
    let mut i: usize = 0;
    while i < v.len()
        invariant
            i <= v.len(),
            forall|j: int| 0 <= j < i ==> v@[j]@ != s@,
        decreases v.len() - i,
    {
        if str_eq(v[i].as_str(), s) {
            proof {
                assert(strings_view(v@)[i as int] == s@);
            }
            return true;
        }
        i = i + 1;
    }
    false
}

/// Clones a string.
pub fn clone_string(t: &String) -> (s: String)
    ensures
        s@ == t@,
{
    t.clone()
}

/// Clones an optional string.
pub fn clone_opt_string(t: &Option<String>) -> (s: Option<String>)
    ensures
        opt_view(s) == opt_view(*t),
{
    match t {
        Some(x) => Some(x.clone()),
        None => None,
    }
}

/// View of an optional string.
pub open spec fn opt_view(s: Option<String>) -> Option<Seq<char>> {
    match s {
        Some(x) => Some(x@),
        None => None,
    }
}

/// Views of a vector of strings.
pub open spec fn strings_view(v: Seq<String>) -> Seq<Seq<char>> {
    v.map_values(|s: String| s@)
}

pub proof fn lemma_strings_view_push(v: Seq<String>, s: String)
    ensures
        strings_view(v.push(s)) == strings_view(v).push(s@),
{
    assert(strings_view(v.push(s)) =~= strings_view(v).push(s@));
}

/// Clones a vector of strings.
pub fn clone_strings(v: &Vec<String>) -> (r: Vec<String>)
    ensures
        strings_view(r@) == strings_view(v@),
{
    let mut r: Vec<String> = Vec::new();
    let mut i: usize = 0;
    while i < v.len()
        invariant
            i <= v.len(),
            r.len() == i,
            forall|j: int| 0 <= j < i ==> r@[j]@ == v@[j]@,
        decreases v.len() - i,
    {
        r.push(v[i].clone());
        i = i + 1;
    }
    proof {
        assert(strings_view(r@) =~= strings_view(v@));
    }
    r
}

/// Equality of two string slices by content.
pub fn str_eq(a: &str, b: &str) -> (r: bool)
    ensures
        r == (a@ == b@),
{
    let va = to_chars(a);
    let vb = to_chars(b);
    if va.len() != vb.len() {
        return false;
    }
    let mut i: usize = 0;
    while i < va.len()
        invariant
            i <= va.len() == vb.len(),
            va@ == a@,
            vb@ == b@,
            forall|j: int| 0 <= j < i ==> va@[j] == vb@[j],
        decreases va.len() - i,
    {
        if va[i] != vb[i] {
            return false;
        }
        i = i + 1;
    }
    proof {
        assert(va@ =~= vb@);
    }
    true
}

/// Decimal digit character for `d < 10`.
pub open spec fn digit_char(d: nat) -> char {
    if d == 0 {
        '0'
    } else if d == 1 {
        '1'
    } else if d == 2 {
        '2'
    } else if d == 3 {
        '3'
    } else if d == 4 {
        '4'
    } else if d == 5 {
        '5'
    } else if d == 6 {
        '6'
    } else if d == 7 {
        '7'
    } else if d == 8 {
        '8'
    } else {
        '9'
    }
}

/// Decimal rendering of a natural number, as `Display` writes it.
pub open spec fn decimal(n: nat) -> Seq<char>
    decreases n,
{
    if n < 10 {
        seq![digit_char(n)]
    } else {
        decimal(n / 10).push(digit_char(n % 10))
    }
}

/// Decimal rendering of a signed integer, as `Display` writes it.
pub open spec fn signed_decimal(n: int) -> Seq<char> {
    if n < 0 {
        seq!['-'] + decimal((-n) as nat)
    } else {
        decimal(n as nat)
    }
}

fn digit(d: u64) -> (c: char)
    requires
        d < 10,
    ensures
        c == digit_char(d as nat),
{
    if d == 0 {
        '0'
    } else if d == 1 {
        '1'
    } else if d == 2 {
        '2'
    } else if d == 3 {
        '3'
    } else if d == 4 {
        '4'
    } else if d == 5 {
        '5'
    } else if d == 6 {
        '6'
    } else if d == 7 {
        '7'
    } else if d == 8 {
        '8'
    } else {
        '9'
    }
}

proof fn lemma_decimal_step(n: nat)
    requires
        n >= 10,
    ensures
        decimal(n) == decimal(n / 10).push(digit_char(n % 10)),
{
}

/// Renders `n` in decimal.
pub fn u64_to_string(n: u64) -> (s: String)
    ensures
        s@ == decimal(n as nat),
    decreases n,
{
    if n < 10 {
        let mut s = String::new();
        push_char(&mut s, digit(n));
        proof {
            assert(s@ =~= decimal(n as nat));
        }
        s
    } else {
        let mut s = u64_to_string(n / 10);
        push_char(&mut s, digit(n % 10));
        proof {
            lemma_decimal_step(n as nat);
        }
        s
    }
}

/// Renders `n` in decimal.
pub fn usize_to_string(n: usize) -> (s: String)
    ensures
        s@ == decimal(n as nat),
{
    u64_to_string(n as u64)
}

/// Renders `n` in decimal with a leading minus sign when negative.
pub fn i64_to_string(n: i64) -> (s: String)
    ensures
        s@ == signed_decimal(n as int),
{
    if n < 0 {
        let m: u64 = if n == i64::MIN {
            9223372036854775808u64
        } else {
            (-n) as u64
        };
        let mut s = String::new();
        push_char(&mut s, '-');
        let t = u64_to_string(m);
        s.append(t.as_str());
        proof {
            assert(s@ =~= signed_decimal(n as int));
        }
        s
    } else {
        u64_to_string(n as u64)
    }
}


/// `s` with leading white space removed.
pub open spec fn trim_start(s: Seq<char>) -> Seq<char>
    decreases s.len(),
{
    if s.len() > 0 && is_ws(s[0]) {
        trim_start(s.drop_first())
    } else {
        s
    }
}

/// `s` with trailing white space removed.
pub open spec fn trim_end(s: Seq<char>) -> Seq<char>
    decreases s.len(),
{
    if s.len() > 0 && is_ws(s.last()) {
        trim_end(s.drop_last())
    } else {
        s
    }
}

/// `s` with leading and trailing white space removed, as `str::trim` does.
pub open spec fn trimmed(s: Seq<char>) -> Seq<char> {
    trim_end(trim_start(s))
}

/// Bounds of the trimmed part of `v`.
pub fn trim_bounds(v: &Vec<char>) -> (r: (usize, usize))
    ensures
        r.0 <= r.1 <= v.len(),
        v@.subrange(r.0 as int, r.1 as int) == trimmed(v@),
{
    let n = v.len();
    let mut a: usize = 0;
    proof {
        assert(v@.subrange(0, n as int) =~= v@);
    }
    while a < n && char_is_ws(v[a])
        invariant
            a <= n == v.len(),
            trim_start(v@) == trim_start(v@.subrange(a as int, n as int)),
        decreases n - a,
    {
        proof {
            let t = v@.subrange(a as int, n as int);
            assert(t.drop_first() =~= v@.subrange(a + 1, n as int));
        }
        a = a + 1;
    }
    let ghost ts = v@.subrange(a as int, n as int);
    let mut b: usize = n;
    while b > a && char_is_ws(v[b - 1])
        invariant
            a <= b <= n == v.len(),
            trim_start(v@) == v@.subrange(a as int, n as int),
            trim_end(v@.subrange(a as int, n as int)) == trim_end(v@.subrange(a as int, b as int)),
        decreases b - a,
    {
        proof {
            let t = v@.subrange(a as int, b as int);
            assert(t.drop_last() =~= v@.subrange(a as int, b - 1));
        }
        b = b - 1;
    }
    (a, b)
}

/// Copy of `s` without leading and trailing white space.
pub fn trim_string(s: &str) -> (r: String)
    ensures
        r@ == trimmed(s@),
{
    let v = to_chars(s);
    let (a, b) = trim_bounds(&v);
    from_chars_range(&v, a, b)
}

/// Copy of `s` without leading white space.
pub fn trim_start_string(s: &str) -> (r: String)
    ensures
        r@ == trim_start(s@),
{
    let v = to_chars(s);
    let n = v.len();
    let mut a: usize = 0;
    proof {
        assert(v@.subrange(0, n as int) =~= v@);
    }
    while a < n && char_is_ws(v[a])
        invariant
            a <= n == v.len(),
            v@ == s@,
            trim_start(v@) == trim_start(v@.subrange(a as int, n as int)),
        decreases n - a,
    {
        proof {
            let t = v@.subrange(a as int, n as int);
            assert(t.drop_first() =~= v@.subrange(a + 1, n as int));
        }
        a = a + 1;
    }
    from_chars_range(&v, a, n)
}

/// The words of `s`: maximal runs of characters that are not white space.
pub open spec fn words_of(s: Seq<char>) -> Seq<Seq<char>>
    decreases s.len(),
{
    if s.len() == 0 {
        Seq::empty()
    } else {
        let p = s.drop_last();
        let c = s.last();
        let w = words_of(p);
        if is_ws(c) {
            w
        } else if p.len() > 0 && !is_ws(p.last()) && w.len() > 0 {
            w.update(w.len() - 1, w.last().push(c))
        } else {
            w.push(seq![c])
        }
    }
}

/// The words of `s`, in order.
pub fn split_words(s: &str) -> (words: Vec<String>)
    ensures
        strings_view(words@) == words_of(s@),
{
    let v = to_chars(s);
    let mut words: Vec<String> = Vec::new();
    let mut i: usize = 0;
    while i < v.len()
        invariant
            i <= v@.len(),
            v@ == s@,
            strings_view(words@) == words_of(v@.take(i as int)),
        decreases v@.len() - i,
    {
        let c = v[i];
        let ghost w0 = strings_view(words@);
        proof {
            assert(v@.take(i + 1).drop_last() =~= v@.take(i as int));
        }
        if char_is_ws(c) {
        } else if i > 0 && !char_is_ws(v[i - 1]) && words.len() > 0 {
            let k = words.len() - 1;
            let mut last = words.pop().unwrap();
            push_char(&mut last, c);
            words.push(last);
            proof {
                assert(strings_view(words@) =~= w0.update(k as int, w0.last().push(c)));
            }
        } else {
            let mut fresh = String::new();
            push_char(&mut fresh, c);
            words.push(fresh);
            proof {
                assert(strings_view(words@) =~= w0.push(seq![c]));
            }
        }
        i = i + 1;
    }
    proof {
        assert(v@.take(v@.len() as int) =~= v@);
    }
    words
}

/// Whether `s` is empty or white space only.
pub fn is_blank(s: &str) -> (r: bool)
    ensures
        r == (trimmed(s@).len() == 0),
{
    let v = to_chars(s);
    let (a, b) = trim_bounds(&v);
    a == b
}

/// The words of `s` (maximal runs of non-white-space characters) joined by
/// single spaces, as `s.split_whitespace().collect::<Vec<_>>().join(" ")`.
pub open spec fn collapse_ws(s: Seq<char>) -> Seq<char>
    decreases s.len(),
{
    if s.len() == 0 {
        Seq::empty()
    } else {
        let p = s.drop_last();
        let c = s.last();
        if is_ws(c) {
            collapse_ws(p)
        } else if p.len() > 0 && is_ws(p.last()) && collapse_ws(p).len() > 0 {
            collapse_ws(p) + seq![' ', c]
        } else {
            collapse_ws(p).push(c)
        }
    }
}

/// Joins the white-space separated words of `s` with single spaces.
pub fn collapse_whitespace(s: &str) -> (r: String)
    ensures
        r@ == collapse_ws(s@),
{
    let v = to_chars(s);
    let mut out = String::new();
    let mut nonempty = false;
    let mut i: usize = 0;
    while i < v.len()
        invariant
            i <= v.len(),
            v@ == s@,
            out@ == collapse_ws(v@.take(i as int)),
            nonempty == (out@.len() > 0),
        decreases v.len() - i,
    {
        let c = v[i];
        proof {
            assert(v@.take(i + 1).drop_last() =~= v@.take(i as int));
        }
        if char_is_ws(c) {
        } else if i > 0 && char_is_ws(v[i - 1]) && nonempty {
            push_char(&mut out, ' ');
            push_char(&mut out, c);
            proof {
                assert(out@ =~= collapse_ws(v@.take(i as int)) + seq![' ', c]);
            }
        } else {
            push_char(&mut out, c);
        }
        if !char_is_ws(c) {
            nonempty = true;
        }
        i = i + 1;
    }
    proof {
        assert(v@.take(v.len() as int) =~= v@);
    }
    out
}

/// The text `summarize` produces: the trimmed text, cut to `max_chars`
/// characters with `...` appended when anything was cut.
pub open spec fn summary_of(text: Seq<char>, max_chars: nat) -> Option<Seq<char>> {
    let t = trimmed(text);
    if t.len() == 0 {
        None
    } else if t.len() <= max_chars {
        Some(t)
    } else {
        Some(t.take(max_chars as int) + seq!['.', '.', '.'])
    }
}

/// Trims `text` and keeps at most `max_chars` characters, marking a cut
/// with `...`; `None` when nothing but white space is left.
pub fn summarize(text: &str, max_chars: usize) -> (r: Option<String>)
    ensures
        opt_view(r) == summary_of(text@, max_chars as nat),
{
    let v = to_chars(text);
    let (a, b) = trim_bounds(&v);
    if a == b {
        return None;
    }
    if b - a <= max_chars {
        return Some(from_chars_range(&v, a, b));
    }
    let mut out = from_chars_range(&v, a, a + max_chars);
    push_str(&mut out, "...");
    proof {
        reveal_strlit("...");
        assert(v@.subrange(a as int, b as int).take(max_chars as int) =~= v@.subrange(
            a as int,
            a + max_chars,
        ));
    }
    Some(out)
}

/// The single-line form of a value: words joined by single spaces, then
/// summarized to `max_chars` characters.
pub open spec fn single_line_of(value: Seq<char>, max_chars: nat) -> Seq<char> {
    match summary_of(collapse_ws(value), max_chars) {
        Some(t) => t,
        None => Seq::empty(),
    }
}

/// Flattens `value` onto one line and cuts it to `max_chars` characters.
pub fn single_line(value: &str, max_chars: usize) -> (r: String)
    ensures
        r@ == single_line_of(value@, max_chars as nat),
{
    let flat = collapse_whitespace(value);
    match summarize(flat.as_str(), max_chars) {
        Some(t) => t,
        None => String::new(),
    }
}

/// Whether `s` begins with `prefix`.
pub open spec fn has_prefix(s: Seq<char>, prefix: Seq<char>) -> bool {
    prefix.len() <= s.len() && s.take(prefix.len() as int) == prefix
}

/// Whether `s` begins with `prefix`.
pub fn starts_with(s: &str, prefix: &str) -> (r: bool)
    ensures
        r == has_prefix(s@, prefix@),
{
    let v = to_chars(s);
    let p = to_chars(prefix);
    if p.len() > v.len() {
        return false;
    }
    let mut i: usize = 0;
    while i < p.len()
        invariant
            i <= p.len() <= v.len(),
            v@ == s@,
            p@ == prefix@,
            forall|j: int| 0 <= j < i ==> v@[j] == p@[j],
        decreases p.len() - i,
    {
        if v[i] != p[i] {
            proof {
                assert(s@.take(prefix@.len() as int)[i as int] != prefix@[i as int]);
            }
            return false;
        }
        i = i + 1;
    }
    proof {
        assert(s@.take(prefix@.len() as int) =~= prefix@);
    }
    true
}

/// Whether every character is ASCII.
pub open spec fn all_ascii(s: Seq<char>) -> bool {
    forall|i: int| 0 <= i < s.len() ==> (s[i] as u32) < 128
}

/// ASCII lower-case of one character.
pub open spec fn ascii_lower(c: char) -> char {
    if 'A' <= c && c <= 'Z' {
        ((c as u32) + 32) as char
    } else {
        c
    }
}

/// ASCII lower-case of one character.
pub fn to_ascii_lower(c: char) -> (r: char)
    ensures
        r == ascii_lower(c),
{
    if 'A' <= c && c <= 'Z' {
        let v: u8 = (c as u32 + 32) as u8;
        (v as char)
    } else {
        c
    }
}

/// ASCII lower-case of a character sequence.
pub open spec fn ascii_lower_seq(s: Seq<char>) -> Seq<char> {
    s.map_values(|c: char| ascii_lower(c))
}

/// ASCII lower-case copy of a string.
pub fn to_ascii_lowercase(s: &str) -> (r: String)
    ensures
        r@ == ascii_lower_seq(s@),
{
    let v = to_chars(s);
    let mut out = String::new();
    let mut i: usize = 0;
    while i < v.len()
        invariant
            i <= v.len(),
            v@ == s@,
            out@ == ascii_lower_seq(v@.take(i as int)),
        decreases v.len() - i,
    {
        push_char(&mut out, to_ascii_lower(v[i]));
        i = i + 1;
        proof {
            assert(out@ =~= ascii_lower_seq(v@.take(i as int)));
        }
    }
    proof {
        assert(v@.take(v.len() as int) =~= v@);
    }
    out
}

/// Joins the views of `parts` with `sep`, as `slice::join` does.
pub open spec fn join_seqs(parts: Seq<Seq<char>>, sep: Seq<char>) -> Seq<char>
    decreases parts.len(),
{
    if parts.len() == 0 {
        Seq::empty()
    } else if parts.len() == 1 {
        parts[0]
    } else {
        join_seqs(parts.drop_last(), sep) + sep + parts.last()
    }
}

/// Joins `parts` with `sep`.
pub fn join_strings(parts: &Vec<String>, sep: &str) -> (r: String)
    ensures
        r@ == join_seqs(strings_view(parts@), sep@),
{
    let mut out = String::new();
    let mut i: usize = 0;
    while i < parts.len()
        invariant
            i <= parts.len(),
            out@ == join_seqs(strings_view(parts@.take(i as int)), sep@),
        decreases parts.len() - i,
    {
        proof {
            assert(strings_view(parts@.take(i + 1)).drop_last() =~= strings_view(
                parts@.take(i as int),
            ));
        }
        if i > 0 {
            push_str(&mut out, sep);
        }
        push_str(&mut out, parts[i].as_str());
        i = i + 1;
        proof {
            assert(out@ =~= join_seqs(strings_view(parts@.take(i as int)), sep@));
        }
    }
    proof {
        assert(parts@.take(parts.len() as int) =~= parts@);
    }
    out
}


/// Value of a decimal digit character.
pub open spec fn digit_value(c: char) -> nat {
    ((c as u32) - ('0' as u32)) as nat
}

/// Whether `c` is an ASCII decimal digit.
pub open spec fn is_digit(c: char) -> bool {
    '0' <= c && c <= '9'
}

/// Value of a non-empty run of decimal digits.
pub open spec fn digits_value(s: Seq<char>) -> nat
    decreases s.len(),
{
    if s.len() == 0 {
        0
    } else {
        digits_value(s.drop_last()) * 10 + digit_value(s.last())
    }
}

/// What `str::parse::<usize>` gives back: an optional `+` followed by one or
/// more decimal digits whose value fits in `usize`.
pub open spec fn parse_usize_spec(s: Seq<char>) -> Option<usize> {
    let d = unsigned_digits(s);
    if d.len() > 0 && (forall|i: int| 0 <= i < d.len() ==> is_digit(d[i])) && digits_value(d)
        <= usize::MAX {
        Some(digits_value(d) as usize)
    } else {
        None
    }
}

proof fn lemma_digits_mono(s: Seq<char>, i: int)
    requires
        0 <= i <= s.len(),
        forall|j: int| 0 <= j < s.len() ==> is_digit(s[j]),
    ensures
        digits_value(s.take(i)) <= digits_value(s),
    decreases s.len() - i,
{
    if i < s.len() {
        lemma_digits_mono(s, i + 1);
        assert(s.take(i + 1).drop_last() =~= s.take(i));
    } else {
        assert(s.take(i) =~= s);
    }
}

/// `s` without one leading `+`.
pub open spec fn unsigned_digits(s: Seq<char>) -> Seq<char> {
    if s.len() > 0 && s[0] == '+' {
        s.drop_first()
    } else {
        s
    }
}

/// Parses a decimal `usize` the way `str::parse::<usize>` does.
pub fn parse_usize(s: &str) -> (r: Option<usize>)
    ensures
        r == parse_usize_spec(s@),
{
    let v = to_chars(s);
    let start: usize = if v.len() > 0 && v[0] == '+' {
        1
    } else {
        0
    };
    let ghost d = unsigned_digits(s@);
    proof {
        assert(d =~= v@.subrange(start as int, v.len() as int));
    }
    if start == v.len() {
        return None;
    }
    let mut acc: usize = 0;
    let mut i: usize = start;
    while i < v.len()
        invariant
            start <= i <= v.len(),
            v@ == s@,
            d == v@.subrange(start as int, v.len() as int),
            d == unsigned_digits(s@),
            forall|j: int| start <= j < i ==> is_digit(v@[j]),
            acc == digits_value(v@.subrange(start as int, i as int)),
        decreases v.len() - i,
    {
        let c = v[i];
        if !('0' <= c && c <= '9') {
            proof {
                assert(d[i - start] == v@[i as int]);
                assert(!is_digit(d[i - start]));
                assert(!(forall|j: int| 0 <= j < d.len() ==> is_digit(d[j])));
                assert(parse_usize_spec(s@) is None);
            }
            return None;
        }
        let dv: u32 = c as u32 - '0' as u32;
        proof {
            assert(v@.subrange(start as int, i + 1).drop_last() =~= v@.subrange(start as int, i as int));
        }
        if acc > (usize::MAX - dv as usize) / 10 {
            proof {
                let m = usize::MAX as int;
                let a = acc as int;
                let x = dv as int;
                assert(a * 10 + x > m) by (nonlinear_arith)
                    requires
                        a > (m - x) / 10,
                        0 <= x < 10,
                        m > 10,
                ;
                if forall|j: int| 0 <= j < d.len() ==> is_digit(d[j]) {
                    lemma_digits_mono(d, i + 1 - start);
                    assert(d.take(i + 1 - start) =~= v@.subrange(start as int, i + 1));
                    assert(digits_value(d) > usize::MAX);
                }
                assert(parse_usize_spec(s@) is None);
            }
            return None;
        }
        proof {
            let m = usize::MAX as int;
            let a = acc as int;
            let x = dv as int;
            assert(a * 10 + x <= m) by (nonlinear_arith)
                requires
                    a <= (m - x) / 10,
                    0 <= x < 10,
                    m > 10,
            ;
        }
        acc = acc * 10 + dv as usize;
        i = i + 1;
    }
    proof {
        assert(v@.subrange(start as int, i as int) =~= d);
    }
    Some(acc)
}

/// What `str::parse::<i32>` gives back: an optional sign followed by one
/// or more decimal digits whose signed value fits in `i32`.
pub open spec fn parse_i32_spec(s: Seq<char>) -> Option<i32> {
    if s.len() > 0 && s[0] == '-' {
        let d = s.drop_first();
        if d.len() > 0 && (forall|i: int| 0 <= i < d.len() ==> is_digit(d[i])) && digits_value(d) <= 2147483648 {
            Some((0 - digits_value(d)) as i32)
        } else {
            None
        }
    } else {
        let d = unsigned_digits(s);
        if d.len() > 0 && (forall|i: int| 0 <= i < d.len() ==> is_digit(d[i])) && digits_value(d) <= 2147483647 {
            Some(digits_value(d) as i32)
        } else {
            None
        }
    }
}

/// Parses a decimal `i32` the way `str::parse::<i32>` does.
pub fn parse_i32(s: &str) -> (r: Option<i32>)
    ensures
        r == parse_i32_spec(s@),
{
    let v = to_chars(s);
    if v.len() > 0 && v[0] == '-' {
        let ghost d = s@.drop_first();
        if v.len() > 1 && v[1] == '+' {
            proof {
                assert(d[0] == '+');
                assert(!is_digit(d[0]));
            }
            return None;
        }
        let rest = from_chars_range(&v, 1, v.len());
        proof {
            assert(rest@ =~= d);
            assert(unsigned_digits(rest@) == d);
        }
        match parse_usize(rest.as_str()) {
            Some(n) => if n <= 2147483648 {
                let m: i64 = 0i64 - n as i64;
                Some(m as i32)
            } else {
                None
            },
            None => None,
        }
    } else {
        match parse_usize(s) {
            Some(n) => if n <= 2147483647 {
                Some(n as i32)
            } else {
                None
            },
            None => None,
        }
    }
}

/// Whether `t` occurs in `s`.
pub open spec fn contains_seq(s: Seq<char>, t: Seq<char>) -> bool {
    exists|i: int| 0 <= i && i + t.len() <= s.len() && #[trigger] s.subrange(i, i + t.len()) == t
}

/// Whether `t` occurs in `s`, as `str::contains` tells.
pub fn contains_str(s: &str, t: &str) -> (r: bool)
    ensures
        r == contains_seq(s@, t@),
{
    let v = to_chars(s);
    let w = to_chars(t);
    if w.len() > v.len() {
        proof {
            assert forall|i: int| 0 <= i && i + t@.len() <= s@.len() implies #[trigger] s@.subrange(i, i + t@.len()) != t@ by {}
        }
        return false;
    }
    let mut i: usize = 0;
    while i <= v.len() - w.len()
        invariant
            v@ == s@,
            w@ == t@,
            w.len() <= v.len(),
            i <= v.len() - w.len() + 1,
            forall|k: int| 0 <= k < i ==> #[trigger] s@.subrange(k, k + t@.len()) != t@,
        decreases v.len() - i,
    {
        let mut j: usize = 0;
        let mut same = true;
        while j < w.len()
            invariant
                v@ == s@,
                w@ == t@,
                i + w.len() <= v.len(),
                j <= w.len(),
                same == (forall|x: int| 0 <= x < j ==> v@[i + x] == w@[x]),
            decreases w.len() - j,
        {
            if v[i + j] != w[j] {
                same = false;
            }
            j = j + 1;
        }
        if same {
            proof {
                assert(s@.subrange(i as int, i + t@.len()) =~= t@);
            }
            return true;
        }
        proof {
            let x = choose|x: int| 0 <= x < w.len() && v@[i + x] != w@[x];
            assert(s@.subrange(i as int, i + t@.len())[x] != t@[x]);
        }
        i = i + 1;
    }
    false
}

/// Number of leading characters of `t` whose UTF-8 encoding fits in
/// `budget` bytes.
pub open spec fn chars_within(t: Seq<char>, budget: nat) -> nat
    decreases t.len(),
{
    if t.len() == 0 || char_width(t[0]) > budget {
        0
    } else {
        1 + chars_within(t.drop_first(), (budget - char_width(t[0])) as nat)
    }
}

pub proof fn lemma_chars_within(t: Seq<char>, budget: nat)
    ensures
        chars_within(t, budget) <= t.len(),
        byte_len(t.take(chars_within(t, budget) as int)) <= budget,
        chars_within(t, budget) < t.len() ==> byte_len(
            t.take(chars_within(t, budget) as int + 1),
        ) > budget,
    decreases t.len(),
{
    assert(byte_len(Seq::<char>::empty()) == 0);
    if t.len() == 0 || char_width(t[0]) > budget {
        assert(t.take(0) =~= Seq::<char>::empty());
        if t.len() > 0 {
            assert(t.take(1) =~= seq![t[0]]);
            assert(seq![t[0]].drop_last() =~= Seq::<char>::empty());
        }
    } else {
        let w = char_width(t[0]);
        let rest = t.drop_first();
        let k: int = chars_within(rest, (budget - w) as nat) as int;
        lemma_chars_within(rest, (budget - w) as nat);
        assert(t.take(k + 1) =~= seq![t[0]] + rest.take(k));
        lemma_byte_len_concat(seq![t[0]], rest.take(k));
        assert(seq![t[0]].drop_last() =~= Seq::<char>::empty());
        assert(byte_len(seq![t[0]]) == w);
        if k < rest.len() {
            assert(t.take(k + 2) =~= seq![t[0]] + rest.take(k + 1));
            lemma_byte_len_concat(seq![t[0]], rest.take(k + 1));
        }
    }
}

/// Characters of `t` that `text[..index]` keeps after `index` is moved back to
/// a character boundary (a floor boundary).
pub fn floor_boundary_chars(t: &Vec<char>, index: usize) -> (k: usize)
    ensures
        k == chars_within(t@, index as nat),
{
    let mut k: usize = 0;
    let mut used: usize = 0;
    proof {
        lemma_chars_within(t@, index as nat);
        assert(t@.subrange(0, t.len() as int) =~= t@);
    }
    while k < t.len() && utf8_width(t[k]) <= index - used
        invariant
            k <= t.len(),
            used <= index,
            chars_within(t@, index as nat) == k + chars_within(t@.subrange(k as int, t.len() as int), (index - used) as nat),
        decreases t.len() - k,
    {
        proof {
            let r = t@.subrange(k as int, t.len() as int);
            assert(r.drop_first() =~= t@.subrange(k + 1, t.len() as int));
        }
        used = used + utf8_width(t[k]);
        k = k + 1;
    }
    k
}

} // verus!
