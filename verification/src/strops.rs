//! Executable string operations, each proved against the model in `text`.
//!
//! Heavy manipulation is done on `Vec<char>`, with `&str`/`String` used only
//! at the boundaries, so that every step is visible to the verifier.

use vstd::prelude::*;

use crate::text::{
    all_digits, dec_string, digit_char, digit_val, digits_val, is_digit, is_numeric_token,
    is_white, join_with, lemma_digits_val_prefix_le, lemma_digits_val_push,
    lemma_join_append, lemma_split_nonempty, sanitize_char, split_on, trim_back, trim_front,
    trimmed,
};

verus! {

/// The views of a sequence of character vectors.
pub open spec fn views_of(ts: Seq<Vec<char>>) -> Seq<Seq<char>> {
    Seq::new(ts.len(), |i: int| ts[i]@)
}

/// Relies on `String::push`: appends exactly the given character.
#[verifier::external_body]
fn push_char(s: &mut String, c: char)
    ensures
        final(s)@ == old(s)@.push(c),
{
    s.push(c);
}

/// The characters of `s`, in order.
pub fn to_chars(s: &str) -> (v: Vec<char>)
    ensures
        v@ == s@,
{
    let n: usize = s.unicode_len();
    let mut v: Vec<char> = Vec::new();
    let mut i: usize = 0;
    while i < n
        invariant
            i <= n,
            n == s@.len(),
            v@ == s@.take(i as int),
        decreases n - i,
    {
        let c = s.get_char(i);
        v.push(c);
        proof {
            assert(s@.take(i + 1) =~= s@.take(i as int).push(s@[i as int]));
        }
        i = i + 1;
    }
    proof {
        assert(s@.take(n as int) =~= s@);
    }
    v
}

/// A `String` holding exactly the given characters.
pub fn string_of_chars(v: &Vec<char>) -> (s: String)
    ensures
        s@ == v@,
{
    let mut s = String::new();
    let mut i: usize = 0;
    while i < v.len()
        invariant
            i <= v.len(),
            s@ == v@.take(i as int),
        decreases v.len() - i,
    {
        push_char(&mut s, v[i]);
        proof {
            assert(v@.take(i + 1) =~= v@.take(i as int).push(v@[i as int]));
        }
        i = i + 1;
    }
    proof {
        assert(v@.take(v@.len() as int) =~= v@);
    }
    s
}

/// Appends the characters of `src` to `dst`.
pub fn append_chars(dst: &mut Vec<char>, src: &Vec<char>)
    ensures
        final(dst)@ == old(dst)@ + src@,
{
    let mut i: usize = 0;
    while i < src.len()
        invariant
            i <= src.len(),
            dst@ == old(dst)@ + src@.take(i as int),
        decreases src.len() - i,
    {
        dst.push(src[i]);
        proof {
            assert(old(dst)@ + src@.take(i + 1) =~= (old(dst)@ + src@.take(i as int)).push(
                src@[i as int],
            ));
        }
        i = i + 1;
    }
    proof {
        assert(src@.take(src@.len() as int) =~= src@);
    }
}

/// The characters of `s` from `from` (inclusive) to `to` (exclusive).
pub fn subrange_chars(s: &Vec<char>, from: usize, to: usize) -> (r: Vec<char>)
    requires
        from <= to <= s@.len(),
    ensures
        r@ == s@.subrange(from as int, to as int),
{
    let mut r: Vec<char> = Vec::new();
    let mut i: usize = from;
    while i < to
        invariant
            from <= i <= to <= s@.len(),
            r@ == s@.subrange(from as int, i as int),
        decreases to - i,
    {
        r.push(s[i]);
        proof {
            assert(s@.subrange(from as int, i + 1) =~= s@.subrange(from as int, i as int).push(
                s@[i as int],
            ));
        }
        i = i + 1;
    }
    r
}

/// Character-for-character equality of two string slices.
pub fn str_eq(a: &str, b: &str) -> (r: bool)
    ensures
        r == (a@ == b@),
{
    let la: usize = a.unicode_len();
    let lb: usize = b.unicode_len();
    if la != lb {
        return false;
    }
    let mut i: usize = 0;
    while i < la
        invariant
            i <= la,
            la == a@.len(),
            la == b@.len(),
            forall|j: int| 0 <= j < i ==> a@[j] == b@[j],
        decreases la - i,
    {
        if a.get_char(i) != b.get_char(i) {
            return false;
        }
        i = i + 1;
    }
    proof {
        assert(a@ =~= b@);
    }
    true
}

/// Whether `p` is a prefix of `s`.
pub fn chars_has_prefix(s: &Vec<char>, p: &Vec<char>) -> (r: bool)
    ensures
        r == p@.is_prefix_of(s@),
{
    if p.len() > s.len() {
        return false;
    }
    let mut i: usize = 0;
    while i < p.len()
        invariant
            i <= p.len() <= s.len(),
            forall|j: int| 0 <= j < i ==> p@[j] == s@[j],
        decreases p.len() - i,
    {
        if p[i] != s[i] {
            proof {
                assert(s@.subrange(0, p@.len() as int)[i as int] == s@[i as int]);
            }
            return false;
        }
        i = i + 1;
    }
    proof {
        assert(p@ =~= s@.subrange(0, p@.len() as int));
    }
    true
}

/// Whether `p` is a suffix of `s`.
pub fn chars_has_suffix(s: &Vec<char>, p: &Vec<char>) -> (r: bool)
    ensures
        r == p@.is_suffix_of(s@),
{
    if p.len() > s.len() {
        return false;
    }
    let off: usize = s.len() - p.len();
    let mut i: usize = 0;
    while i < p.len()
        invariant
            i <= p.len() <= s.len(),
            off == s.len() - p.len(),
            forall|j: int| 0 <= j < i ==> p@[j] == s@[off + j],
        decreases p.len() - i,
    {
        if p[i] != s[off + i] {
            proof {
                assert(s@.subrange(s@.len() - p@.len(), s@.len() as int)[i as int] == s@[off + i]);
            }
            return false;
        }
        i = i + 1;
    }
    proof {
        assert(p@ =~= s@.subrange(s@.len() - p@.len(), s@.len() as int));
    }
    true
}

/// The last position holding `c`, if any.
pub fn last_index_of(s: &Vec<char>, c: char) -> (r: Option<usize>)
    ensures
        match r {
            Some(i) => i < s@.len() && s@[i as int] == c && forall|j: int|
                i < j < s@.len() ==> s@[j] != c,
            None => forall|j: int| 0 <= j < s@.len() ==> s@[j] != c,
        },
{
    let mut i: usize = s.len();
    while i > 0
        invariant
            i <= s@.len(),
            forall|j: int| i <= j < s@.len() ==> s@[j] != c,
        decreases i,
    {
        i = i - 1;
        if s[i] == c {
            return Some(i);
        }
    }
    None
}

/// Splits `s` at every occurrence of `sep`.
pub fn split_chars(s: &Vec<char>, sep: char) -> (r: Vec<Vec<char>>)
    ensures
        views_of(r@) == split_on(s@, sep),
{
    let mut out: Vec<Vec<char>> = Vec::new();
    let mut cur: Vec<char> = Vec::new();
    let mut i: usize = 0;
    proof {
        lemma_split_nonempty(s@, sep);
        assert(s@.skip(0) =~= s@);
        assert(views_of(out@) =~~= Seq::<Seq<char>>::empty());
        assert(prepend_first(Seq::<char>::empty(), split_on(s@, sep)) =~~= split_on(s@, sep));
    }
    while i < s.len()
        invariant
            i <= s@.len(),
            split_on(s@, sep) =~~= views_of(out@) + prepend_first(cur@, split_on(
                s@.skip(i as int),
                sep,
            )),
        decreases s.len() - i,
    {
        proof {
            lemma_split_nonempty(s@.skip(i + 1), sep);
            assert(s@.skip(i as int)[0] == s@[i as int]);
            assert(s@.skip(i as int).skip(1) =~= s@.skip(i + 1));
        }
        let ghost rest = split_on(s@.skip(i + 1), sep);
        if s[i] == sep {
            proof {
                assert(split_on(s@.skip(i as int), sep) =~~= seq![Seq::<char>::empty()] + rest);
                assert(prepend_first(cur@, seq![Seq::<char>::empty()] + rest) =~~= seq![cur@]
                    + rest);
                assert(seq![rest[0]] + rest.skip(1) =~~= rest);
                assert(prepend_first(Seq::<char>::empty(), rest) =~~= rest);
            }
            out.push(cur);
            cur = Vec::new();
            proof {
                assert(views_of(out@) =~~= views_of(out@.drop_last()) + seq![out@.last()@]);
            }
        } else {
            proof {
                assert(split_on(s@.skip(i as int), sep) =~~= seq![seq![s@[i as int]] + rest[0]]
                    + rest.skip(1));
                assert(prepend_first(cur@, split_on(s@.skip(i as int), sep)) =~~= prepend_first(
                    cur@.push(s@[i as int]),
                    rest,
                ));
            }
            cur.push(s[i]);
        }
        i = i + 1;
    }
    proof {
        assert(s@.skip(s@.len() as int) =~= Seq::<char>::empty());
        assert(prepend_first(cur@, split_on(Seq::<char>::empty(), sep)) =~~= seq![cur@]);
    }
    out.push(cur);
    proof {
        assert(views_of(out@) =~~= views_of(out@.drop_last()) + seq![out@.last()@]);
        assert(views_of(out@) =~~= split_on(s@, sep));
    }
    out
}

/// The token list with its first token extended on the left by `t`.
pub open spec fn prepend_first(t: Seq<char>, parts: Seq<Seq<char>>) -> Seq<Seq<char>> {
    seq![t + parts[0]] + parts.skip(1)
}

/// Joins tokens with `sep` between each pair.
pub fn join_chars(parts: &Vec<Vec<char>>, sep: char) -> (r: Vec<char>)
    ensures
        r@ == join_with(views_of(parts@), sep),
{
    let mut r: Vec<char> = Vec::new();
    if parts.len() == 0 {
        return r;
    }
    append_chars(&mut r, &parts[0]);
    proof {
        assert(r@ =~= parts@[0]@);
        assert(views_of(parts@).take(1).len() == 1);
        assert(views_of(parts@).take(1)[0] == parts@[0]@);
    }
    let mut i: usize = 1;
    while i < parts.len()
        invariant
            1 <= i <= parts@.len(),
            r@ == join_with(views_of(parts@).take(i as int), sep),
        decreases parts.len() - i,
    {
        r.push(sep);
        append_chars(&mut r, &parts[i]);
        proof {
            let vs = views_of(parts@);
            lemma_join_append(vs.take(i as int), seq![vs[i as int]], sep);
            assert(vs.take(i as int) + seq![vs[i as int]] =~~= vs.take(i + 1));
            assert(join_with(seq![vs[i as int]], sep) == vs[i as int]);
        }
        i = i + 1;
    }
    proof {
        assert(views_of(parts@).take(parts@.len() as int) =~~= views_of(parts@));
    }
    r
}

/// Decides `is_digit`.
pub fn is_digit_char(c: char) -> (r: bool)
    ensures
        r == is_digit(c),
{
    c >= '0' && c <= '9'
}

/// Decides `is_white`.
pub fn is_white_char(c: char) -> (r: bool)
    ensures
        r == is_white(c),
{
    let u = c as u32;
    (u >= 0x09 && u <= 0x0d) || u == 0x20 || u == 0x85 || u == 0xa0 || u == 0x1680 || (u >= 0x2000
        && u <= 0x200a) || u == 0x2028 || u == 0x2029 || u == 0x202f || u == 0x205f || u == 0x3000
}

/// Computes `sanitize_char`.
pub fn sanitize_char_exec(c: char) -> (r: char)
    ensures
        r == sanitize_char(c),
{
    let u = c as u32;
    if c == '<' || c == '>' || c == '"' || c == '|' || c == '?' || c == '*' || c == '/' || c == '\\'
        || u < 0x20 || (u >= 0x7f && u <= 0x9f) {
        '_'
    } else {
        c
    }
}

/// Whether every character of `t` is a decimal digit.
pub fn chars_all_digits(t: &Vec<char>) -> (r: bool)
    ensures
        r == all_digits(t@),
{
    let mut i: usize = 0;
    while i < t.len()
        invariant
            i <= t@.len(),
            forall|j: int| 0 <= j < i ==> is_digit(#[trigger] t@[j]),
        decreases t.len() - i,
    {
        if !(t[i] >= '0' && t[i] <= '9') {
            return false;
        }
        i = i + 1;
    }
    true
}

/// Reads a version token: succeeds exactly on non-empty digit runs whose
/// value fits an unsigned 32-bit integer.
pub fn parse_u32_digits(t: &Vec<char>) -> (r: Option<u32>)
    ensures
        r is Some <==> is_numeric_token(t@) && digits_val(t@) <= u32::MAX,
        r is Some ==> r.unwrap() as nat == digits_val(t@),
{
    if t.len() == 0 {
        return None;
    }
    let mut acc: u32 = 0;
    let mut i: usize = 0;
    while i < t.len()
        invariant
            i <= t@.len(),
            t@.len() > 0,
            forall|j: int| 0 <= j < i ==> is_digit(#[trigger] t@[j]),
            acc as nat == digits_val(t@.take(i as int)),
        decreases t.len() - i,
    {
        let c = t[i];
        if !(c >= '0' && c <= '9') {
            return None;
        }
        let d: u32 = (c as u32) - ('0' as u32);
        proof {
            assert(d == digit_val(c));
            assert(t@.take(i + 1) =~= t@.take(i as int).push(t@[i as int]));
            lemma_digits_val_push(t@.take(i as int), t@[i as int]);
        }
        if acc > (u32::MAX - d) / 10 {
            proof {
                lemma_digits_val_prefix_le(t@, i + 1);
            }
            return None;
        }
        acc = acc * 10 + d;
        i = i + 1;
    }
    proof {
        assert(t@.take(t@.len() as int) =~= t@);
    }
    Some(acc)
}

/// Reads a non-negative integer: succeeds exactly on non-empty digit runs
/// whose value fits an unsigned 64-bit integer.
pub fn parse_u64_digits(t: &Vec<char>) -> (r: Option<u64>)
    ensures
        r is Some <==> is_numeric_token(t@) && digits_val(t@) <= u64::MAX,
        r is Some ==> r.unwrap() as nat == digits_val(t@),
{
    if t.len() == 0 {
        return None;
    }
    let mut acc: u64 = 0;
    let mut i: usize = 0;
    while i < t.len()
        invariant
            i <= t@.len(),
            t@.len() > 0,
            forall|j: int| 0 <= j < i ==> is_digit(#[trigger] t@[j]),
            acc as nat == digits_val(t@.take(i as int)),
        decreases t.len() - i,
    {
        let c = t[i];
        if !(c >= '0' && c <= '9') {
            return None;
        }
        let d: u64 = (c as u64) - ('0' as u64);
        proof {
            assert(d == digit_val(c));
            assert(t@.take(i + 1) =~= t@.take(i as int).push(t@[i as int]));
            lemma_digits_val_push(t@.take(i as int), t@[i as int]);
        }
        if acc > (u64::MAX - d) / 10 {
            proof {
                lemma_digits_val_prefix_le(t@, i + 1);
            }
            return None;
        }
        acc = acc * 10 + d;
        i = i + 1;
    }
    proof {
        assert(t@.take(t@.len() as int) =~= t@);
    }
    Some(acc)
}

/// The digit character for a value below ten.
pub fn digit_char_exec(d: u32) -> (r: char)
    requires
        d < 10,
    ensures
        r == digit_char(d as nat),
{
    if d == 0 {
        '0'
    } else if d == 1 {
        '1'
    } else if d == 2 {
        '2'
    } else if d == 3 {
        '3'
    } else if d == 4 {
        '4'
    } else if d == 5 {
        '5'
    } else if d == 6 {
        '6'
    } else if d == 7 {
        '7'
    } else if d == 8 {
        '8'
    } else {
        '9'
    }
}

/// The canonical decimal rendering of `n`.
pub fn format_u32(n: u32) -> (v: Vec<char>)
    ensures
        v@ == dec_string(n as nat),
{
    let mut digits: Vec<char> = Vec::new();
    if n == 0 {
        digits.push('0');
        proof {
            assert(dec_string(0) =~= seq!['0']);
        }
        return digits;
    }
    let mut m: u32 = n;
    while m > 0
        invariant
            m > 0 ==> dec_string(n as nat) =~= dec_string(m as nat) + digits@,
            m == 0 ==> dec_string(n as nat) =~= digits@,
        decreases m,
    {
        let c = digit_char_exec(m % 10);
        digits.insert(0, c);
        proof {
            assert(digits@ =~= seq![c] + digits@.subrange(1, digits@.len() as int));
            if m >= 10 {
                assert(dec_string(m as nat) =~= dec_string((m / 10) as nat) + seq![digit_char(
                    (m % 10) as nat,
                )]);
            } else {
                assert(dec_string(m as nat) =~= seq![digit_char(m as nat)]);
            }
        }
        m = m / 10;
    }
    digits
}

/// The canonical decimal rendering of a 64-bit value.
pub fn format_u64(n: u64) -> (v: Vec<char>)
    ensures
        v@ == dec_string(n as nat),
{
    let mut digits: Vec<char> = Vec::new();
    if n == 0 {
        digits.push('0');
        proof {
            assert(dec_string(0) =~= seq!['0']);
        }
        return digits;
    }
    let mut m: u64 = n;
    while m > 0
        invariant
            m > 0 ==> dec_string(n as nat) =~= dec_string(m as nat) + digits@,
            m == 0 ==> dec_string(n as nat) =~= digits@,
        decreases m,
    {
        let c = digit_char_exec((m % 10) as u32);
        digits.insert(0, c);
        proof {
            assert(digits@ =~= seq![c] + digits@.subrange(1, digits@.len() as int));
            if m >= 10 {
                assert(dec_string(m as nat) =~= dec_string((m / 10) as nat) + seq![digit_char(
                    (m % 10) as nat,
                )]);
            } else {
                assert(dec_string(m as nat) =~= seq![digit_char(m as nat)]);
            }
        }
        m = m / 10;
    }
    digits
}

/// The characters of `s` with white space removed from both ends.
pub fn trim_chars(s: &Vec<char>) -> (r: Vec<char>)
    ensures
        r@ == trimmed(s@),
{
    let mut start: usize = 0;
    while start < s.len() && is_white_char(s[start])
        invariant
            start <= s@.len(),
            forall|j: int| 0 <= j < start ==> is_white(#[trigger] s@[j]),
        decreases s.len() - start,
    {
        start = start + 1;
    }
    proof {
        crate::text::lemma_trim_front_skip(s@, start as int);
        if start < s@.len() {
            assert(s@.skip(start as int)[0] == s@[start as int]);
            assert(trim_front(s@.skip(start as int)) == s@.skip(start as int));
        } else {
            assert(s@.skip(start as int) =~= Seq::<char>::empty());
        }
        assert(trim_front(s@) =~= s@.skip(start as int));
    }
    let ghost t = s@.skip(start as int);
    let mut end: usize = s.len();
    while end > start && is_white_char(s[end - 1])
        invariant
            start <= end <= s@.len(),
            forall|j: int| end <= j < s@.len() ==> is_white(#[trigger] s@[j]),
        decreases end,
    {
        end = end - 1;
    }
    proof {
        assert forall|j: int| end - start <= j < t.len() implies is_white(#[trigger] t[j]) by {
            assert(t[j] == s@[start + j]);
        }
        crate::text::lemma_trim_back_take(t, end - start);
        let u = t.take(end - start);
        if end > start {
            assert(u.last() == s@[end - 1]);
            assert(trim_back(u) == u);
        } else {
            assert(u =~= Seq::<char>::empty());
        }
        assert(trimmed(s@) =~= s@.subrange(start as int, end as int));
    }
    subrange_chars(s, start, end)
}

} // verus!
