//! The mathematical model of the filename scheme: character classes, decimal
//! digit strings, and splitting/joining on a separator character.
//!
//! Everything here is specification-level; the executable counterparts live
//! in `strops` and are proved against these definitions.

use vstd::prelude::*;

verus! {

/// ASCII decimal digit.
pub open spec fn is_digit(c: char) -> bool {
    '0' <= c && c <= '9'
}

/// Numeric value of one decimal digit character.
pub open spec fn digit_val(c: char) -> nat {
    (c as nat - '0' as nat) as nat
}

/// Every character of `s` is a decimal digit; true of the empty sequence.
pub open spec fn all_digits(s: Seq<char>) -> bool {
    forall|i: int| 0 <= i < s.len() ==> is_digit(#[trigger] s[i])
}

/// A non-empty run of decimal digits: the shape of a version token.
pub open spec fn is_numeric_token(s: Seq<char>) -> bool {
    s.len() > 0 && all_digits(s)
}

/// Value of a digit string, most significant digit first.
pub open spec fn digits_val(s: Seq<char>) -> nat
    decreases s.len(),
{
    if s.len() == 0 {
        0
    } else {
        digits_val(s.drop_last()) * 10 + digit_val(s.last())
    }
}

/// The digit character for a value below ten.
pub open spec fn digit_char(d: nat) -> char {
    if d == 0 {
        '0'
    } else if d == 1 {
        '1'
    } else if d == 2 {
        '2'
    } else if d == 3 {
        '3'
    } else if d == 4 {
        '4'
    } else if d == 5 {
        '5'
    } else if d == 6 {
        '6'
    } else if d == 7 {
        '7'
    } else if d == 8 {
        '8'
    } else {
        '9'
    }
}

/// Canonical decimal rendering of `n`: no leading zeros, and `0` is `"0"`.
pub open spec fn dec_string(n: nat) -> Seq<char>
    decreases n,
{
    if n < 10 {
        seq![digit_char(n)]
    } else {
        dec_string(n / 10).push(digit_char(n % 10))
    }
}

/// `digit_char` and `digit_val` are inverse on single digits.
pub proof fn lemma_digit_char_val(d: nat)
    requires
        d < 10,
    ensures
        is_digit(digit_char(d)),
        digit_val(digit_char(d)) == d,
{
}

/// A canonical decimal rendering is a non-empty digit run.
pub proof fn lemma_dec_string_digits(n: nat)
    ensures
        is_numeric_token(dec_string(n)),
    decreases n,
{
    if n >= 10 {
        lemma_dec_string_digits(n / 10);
        assert forall|i: int| 0 <= i < dec_string(n).len() implies is_digit(
            #[trigger] dec_string(n)[i],
        ) by {
            if i < dec_string(n).len() - 1 {
                assert(dec_string(n)[i] == dec_string(n / 10)[i]);
            }
        }
    }
}

/// Reading a canonical decimal rendering back gives the value it renders.
pub proof fn lemma_dec_string_val(n: nat)
    ensures
        digits_val(dec_string(n)) == n,
    decreases n,
{
    if n < 10 {
        lemma_digit_char_val(n);
        assert(digits_val(Seq::<char>::empty()) == 0);
        assert(dec_string(n).drop_last() =~= Seq::<char>::empty());
        assert(digits_val(dec_string(n)) == digits_val(dec_string(n).drop_last()) * 10 + digit_val(
            dec_string(n).last(),
        ));
    } else {
        lemma_dec_string_val(n / 10);
        lemma_digit_char_val(n % 10);
        assert(dec_string(n).drop_last() =~= dec_string(n / 10));
        assert(dec_string(n).last() == digit_char(n % 10));
        assert(digits_val(dec_string(n)) == digits_val(dec_string(n).drop_last()) * 10 + digit_val(
            dec_string(n).last(),
        ));
    }
}

/// Appending one digit multiplies the value by ten and adds the digit.
pub proof fn lemma_digits_val_push(s: Seq<char>, c: char)
    ensures
        digits_val(s.push(c)) == digits_val(s) * 10 + digit_val(c),
{
    assert(s.push(c).drop_last() =~= s);
}

/// A digit string is worth at least any of its prefixes.
pub proof fn lemma_digits_val_prefix_le(s: Seq<char>, j: int)
    requires
        0 <= j <= s.len(),
    ensures
        digits_val(s.take(j)) <= digits_val(s),
    decreases s.len() - j,
{
    if j < s.len() {
        lemma_digits_val_prefix_le(s, j + 1);
        assert(s.take(j + 1).drop_last() =~= s.take(j));
        assert(digits_val(s.take(j + 1)) == digits_val(s.take(j)) * 10 + digit_val(
            s.take(j + 1).last(),
        ));
    } else {
        assert(s.take(j) =~= s);
    }
}

/// Splitting on `sep`: the token sequence always has at least one element,
/// and splitting the empty string yields one empty token.
pub open spec fn split_on(s: Seq<char>, sep: char) -> Seq<Seq<char>>
    decreases s.len(),
{
    if s.len() == 0 {
        seq![Seq::<char>::empty()]
    } else if s[0] == sep {
        seq![Seq::<char>::empty()] + split_on(s.skip(1), sep)
    } else {
        let rest = split_on(s.skip(1), sep);
        seq![seq![s[0]] + rest[0]] + rest.skip(1)
    }
}

pub proof fn lemma_split_nonempty(s: Seq<char>, sep: char)
    ensures
        split_on(s, sep).len() >= 1,
    decreases s.len(),
{
    if s.len() > 0 {
        lemma_split_nonempty(s.skip(1), sep);
    }
}

/// A string without the separator is a single token.
pub proof fn lemma_split_no_sep(s: Seq<char>, sep: char)
    requires
        forall|i: int| 0 <= i < s.len() ==> #[trigger] s[i] != sep,
    ensures
        split_on(s, sep) =~~= seq![s],
    decreases s.len(),
{
    if s.len() > 0 {
        lemma_split_no_sep(s.skip(1), sep);
        assert(seq![s[0]] + s.skip(1) =~= s);
    }
}

/// Splitting distributes over a separator: the tokens of `a ++ sep ++ b` are
/// the tokens of `a` followed by the tokens of `b`.
pub proof fn lemma_split_append(a: Seq<char>, b: Seq<char>, sep: char)
    ensures
        split_on(a + seq![sep] + b, sep) =~~= split_on(a, sep) + split_on(b, sep),
    decreases a.len(),
{
    let s = a + seq![sep] + b;
    if a.len() == 0 {
        assert(s[0] == sep);
        assert(s.skip(1) =~= b);
    } else {
        lemma_split_append(a.skip(1), b, sep);
        lemma_split_nonempty(a.skip(1), sep);
        lemma_split_nonempty(b, sep);
        assert(s.skip(1) =~= a.skip(1) + seq![sep] + b);
        if a[0] == sep {
            assert(a.skip(1) + seq![sep] + b =~= (a + seq![sep] + b).skip(1));
        }
    }
}

/// Joining tokens with the separator between each pair.
pub open spec fn join_with(parts: Seq<Seq<char>>, sep: char) -> Seq<char>
    decreases parts.len(),
{
    if parts.len() == 0 {
        Seq::<char>::empty()
    } else if parts.len() == 1 {
        parts[0]
    } else {
        parts[0] + seq![sep] + join_with(parts.skip(1), sep)
    }
}

/// Joining distributes over concatenation of non-empty token sequences.
pub proof fn lemma_join_append(a: Seq<Seq<char>>, b: Seq<Seq<char>>, sep: char)
    requires
        a.len() > 0,
        b.len() > 0,
    ensures
        join_with(a + b, sep) =~= join_with(a, sep) + seq![sep] + join_with(b, sep),
    decreases a.len(),
{
    if a.len() == 1 {
        assert((a + b).skip(1) =~= b);
        assert((a + b)[0] == a[0]);
    } else {
        lemma_join_append(a.skip(1), b, sep);
        assert((a + b).skip(1) =~= a.skip(1) + b);
    }
}

/// Joining the tokens of a split restores the original string.
pub proof fn lemma_join_split(s: Seq<char>, sep: char)
    ensures
        join_with(split_on(s, sep), sep) =~= s,
    decreases s.len(),
{
    if s.len() == 0 {
    } else if s[0] == sep {
        lemma_join_split(s.skip(1), sep);
        lemma_split_nonempty(s.skip(1), sep);
        let parts = seq![Seq::<char>::empty()] + split_on(s.skip(1), sep);
        assert(parts.skip(1) =~= split_on(s.skip(1), sep));
        assert(join_with(parts, sep) =~= seq![sep] + join_with(split_on(s.skip(1), sep), sep));
        assert(seq![sep] + s.skip(1) =~= s);
    } else {
        lemma_join_split(s.skip(1), sep);
        lemma_split_nonempty(s.skip(1), sep);
        let rest = split_on(s.skip(1), sep);
        let parts = seq![seq![s[0]] + rest[0]] + rest.skip(1);
        if rest.len() == 1 {
            assert(join_with(rest, sep) == rest[0]);
            assert(join_with(parts, sep) == seq![s[0]] + rest[0]);
            assert(seq![s[0]] + s.skip(1) =~= s);
        } else {
            assert(parts.skip(1) =~= rest.skip(1));
            assert(join_with(parts, sep) =~= seq![s[0]] + rest[0] + seq![sep] + join_with(
                rest.skip(1),
                sep,
            ));
            assert(join_with(rest, sep) =~= rest[0] + seq![sep] + join_with(rest.skip(1), sep));
            assert(seq![s[0]] + s.skip(1) =~= s);
        }
    }
}

/// No token produced by a split contains the separator.
pub proof fn lemma_split_tokens_no_sep(s: Seq<char>, sep: char)
    ensures
        forall|k: int, i: int|
            0 <= k < split_on(s, sep).len() && 0 <= i < split_on(s, sep)[k].len()
                ==> #[trigger] split_on(s, sep)[k][i] != sep,
    decreases s.len(),
{
    if s.len() > 0 {
        lemma_split_tokens_no_sep(s.skip(1), sep);
        let rest = split_on(s.skip(1), sep);
        lemma_split_nonempty(s.skip(1), sep);
        if s[0] != sep {
            let parts = seq![seq![s[0]] + rest[0]] + rest.skip(1);
            assert forall|k: int, i: int|
                0 <= k < parts.len() && 0 <= i < parts[k].len() implies #[trigger] parts[k][i]
                != sep by {
                if k == 0 {
                    if i > 0 {
                        assert(parts[0][i] == rest[0][i - 1]);
                    }
                } else {
                    assert(parts[k] == rest[k]);
                }
            }
        }
    }
}

/// Splitting a join restores the tokens, provided none of them holds the
/// separator.
pub proof fn lemma_split_join(toks: Seq<Seq<char>>, sep: char)
    requires
        toks.len() >= 1,
        forall|k: int, i: int|
            0 <= k < toks.len() && 0 <= i < toks[k].len() ==> #[trigger] toks[k][i] != sep,
    ensures
        split_on(join_with(toks, sep), sep) =~~= toks,
    decreases toks.len(),
{
    if toks.len() == 1 {
        lemma_split_no_sep(toks[0], sep);
        assert(join_with(toks, sep) == toks[0]);
    } else {
        assert forall|k: int, i: int|
            0 <= k < toks.skip(1).len() && 0 <= i < toks.skip(1)[k].len() implies #[trigger] toks.skip(
            1,
        )[k][i] != sep by {
            assert(toks.skip(1)[k] == toks[k + 1]);
        }
        lemma_split_join(toks.skip(1), sep);
        lemma_split_append(toks[0], join_with(toks.skip(1), sep), sep);
        lemma_split_no_sep(toks[0], sep);
        assert(join_with(toks, sep) == toks[0] + seq![sep] + join_with(toks.skip(1), sep));
        assert(seq![toks[0]] + toks.skip(1) =~~= toks);
    }
}

/// A character absent from every token and distinct from the separator is
/// absent from the join.
pub proof fn lemma_join_no_char(toks: Seq<Seq<char>>, sep: char, c: char)
    requires
        c != sep,
        forall|k: int, i: int|
            0 <= k < toks.len() && 0 <= i < toks[k].len() ==> #[trigger] toks[k][i] != c,
    ensures
        forall|i: int|
            0 <= i < join_with(toks, sep).len() ==> #[trigger] join_with(toks, sep)[i] != c,
    decreases toks.len(),
{
    if toks.len() <= 1 {
    } else {
        assert forall|k: int, i: int|
            0 <= k < toks.skip(1).len() && 0 <= i < toks.skip(1)[k].len() implies #[trigger] toks.skip(
            1,
        )[k][i] != c by {
            assert(toks.skip(1)[k] == toks[k + 1]);
        }
        lemma_join_no_char(toks.skip(1), sep, c);
        let j = join_with(toks, sep);
        assert forall|i: int| 0 <= i < j.len() implies #[trigger] j[i] != c by {
            if i < toks[0].len() {
                assert(j[i] == toks[0][i]);
            } else if i > toks[0].len() {
                assert(j[i] == join_with(toks.skip(1), sep)[i - toks[0].len() - 1]);
            }
        }
    }
}

/// A character absent from a string is absent from every token of its split.
pub proof fn lemma_split_tokens_preserve(s: Seq<char>, sep: char, c: char)
    requires
        forall|i: int| 0 <= i < s.len() ==> #[trigger] s[i] != c,
    ensures
        forall|k: int, i: int|
            0 <= k < split_on(s, sep).len() && 0 <= i < split_on(s, sep)[k].len()
                ==> #[trigger] split_on(s, sep)[k][i] != c,
    decreases s.len(),
{
    if s.len() > 0 {
        assert forall|i: int| 0 <= i < s.skip(1).len() implies #[trigger] s.skip(1)[i] != c by {
            assert(s.skip(1)[i] == s[i + 1]);
        }
        lemma_split_tokens_preserve(s.skip(1), sep, c);
        let rest = split_on(s.skip(1), sep);
        lemma_split_nonempty(s.skip(1), sep);
        if s[0] != sep {
            let parts = seq![seq![s[0]] + rest[0]] + rest.skip(1);
            assert forall|k: int, i: int|
                0 <= k < parts.len() && 0 <= i < parts[k].len() implies #[trigger] parts[k][i]
                != c by {
                if k == 0 {
                    if i > 0 {
                        assert(parts[0][i] == rest[0][i - 1]);
                    }
                } else {
                    assert(parts[k] == rest[k]);
                }
            }
        }
    }
}

/// Unicode control characters: the C0 range, DEL, and the C1 range.
pub open spec fn is_control_char(c: char) -> bool {
    (c as nat) < 0x20 || (0x7f <= c as nat && c as nat <= 0x9f)
}

/// The Unicode white-space characters, as `char::is_whitespace` counts them.
pub open spec fn is_white(c: char) -> bool {
    c == '\u{09}' || c == '\u{0a}' || c == '\u{0b}' || c == '\u{0c}' || c == '\u{0d}' || c == ' '
        || c == '\u{85}' || c == '\u{a0}' || c == '\u{1680}' || (0x2000 <= c as nat && c as nat
        <= 0x200a) || c == '\u{2028}' || c == '\u{2029}' || c == '\u{202f}' || c == '\u{205f}'
        || c == '\u{3000}'
}

/// The per-character sanitizing map: filesystem-reserved punctuation, path
/// separators and control characters become `'_'`; everything else (the colon
/// included) passes through.
pub open spec fn sanitize_char(c: char) -> char {
    if c == '<' || c == '>' || c == '"' || c == '|' || c == '?' || c == '*' || c == '/' || c == '\\'
        || is_control_char(c) {
        '_'
    } else {
        c
    }
}

/// Drop leading white space.
pub open spec fn trim_front(s: Seq<char>) -> Seq<char>
    decreases s.len(),
{
    if s.len() > 0 && is_white(s[0]) {
        trim_front(s.skip(1))
    } else {
        s
    }
}

/// Drop trailing white space.
pub open spec fn trim_back(s: Seq<char>) -> Seq<char>
    decreases s.len(),
{
    if s.len() > 0 && is_white(s.last()) {
        trim_back(s.drop_last())
    } else {
        s
    }
}

/// Drop white space from both ends.
pub open spec fn trimmed(s: Seq<char>) -> Seq<char> {
    trim_back(trim_front(s))
}

/// `trim_front` skips exactly a white prefix.
pub proof fn lemma_trim_front_skip(s: Seq<char>, k: int)
    requires
        0 <= k <= s.len(),
        forall|j: int| 0 <= j < k ==> is_white(#[trigger] s[j]),
    ensures
        trim_front(s) =~= trim_front(s.skip(k)),
    decreases k,
{
    if k > 0 {
        assert(is_white(s[0]));
        assert forall|j: int| 0 <= j < k - 1 implies is_white(#[trigger] s.skip(1)[j]) by {
            assert(s.skip(1)[j] == s[j + 1]);
        }
        lemma_trim_front_skip(s.skip(1), k - 1);
        assert(s.skip(1).skip(k - 1) =~= s.skip(k));
        assert(trim_front(s) == trim_front(s.skip(1)));
    } else {
        assert(s.skip(0) =~= s);
    }
}

/// `trim_back` drops exactly a white suffix.
pub proof fn lemma_trim_back_take(s: Seq<char>, k: int)
    requires
        0 <= k <= s.len(),
        forall|j: int| k <= j < s.len() ==> is_white(#[trigger] s[j]),
    ensures
        trim_back(s) =~= trim_back(s.take(k)),
    decreases s.len() - k,
{
    if k < s.len() {
        assert(is_white(s.last()));
        lemma_trim_back_take(s.drop_last(), k);
        assert(s.drop_last().take(k) =~= s.take(k));
    } else {
        assert(s.take(k) =~= s);
    }
}

} // verus!
