//! The versioned filename scheme: pattern parsing, directory scanning for the
//! highest existing version, note sanitizing, and assembly of the next
//! non-colliding output name.

use vstd::prelude::*;

use crate::error::AppError;
use crate::strops::{
    append_chars, chars_all_digits, chars_has_prefix, chars_has_suffix, format_u32, join_chars,
    last_index_of, parse_u32_digits, sanitize_char_exec, split_chars, string_of_chars,
    subrange_chars, to_chars, views_of,
};
use crate::text::{
    all_digits, dec_string, digits_val, is_digit, is_numeric_token, join_with,
    lemma_dec_string_digits, lemma_dec_string_val, lemma_join_append, lemma_join_no_char,
    lemma_join_split, lemma_split_join, lemma_split_nonempty, lemma_split_tokens_preserve,
    sanitize_char, split_on, trimmed,
};

verus! {

// ---------------------------------------------------------------------------
// Decomposing a path string into directory prefix, stem and extension.
// ---------------------------------------------------------------------------

/// Both kinds of path separator are recognized, as the platform-native
/// decomposition does on the least permissive platform.
pub open spec fn is_sep(c: char) -> bool {
    c == '/' || c == '\\'
}

/// The part of `path` after its last separator (empty if the path ends with
/// a separator or is itself empty).
pub open spec fn file_name_of(path: Seq<char>) -> Seq<char>
    decreases path.len(),
{
    if path.len() == 0 {
        path
    } else if is_sep(path.last()) {
        Seq::<char>::empty()
    } else {
        file_name_of(path.drop_last()).push(path.last())
    }
}

/// The part of `path` up to and including its last separator.
pub open spec fn dir_prefix_of(path: Seq<char>) -> Seq<char> {
    path.take(path.len() - file_name_of(path).len())
}

/// If the last separator stands at `i`, the file name is everything after it.
pub proof fn lemma_file_name_after_sep(path: Seq<char>, i: int)
    requires
        0 <= i < path.len(),
        is_sep(path[i]),
        forall|j: int| i < j < path.len() ==> !is_sep(#[trigger] path[j]),
    ensures
        file_name_of(path) =~= path.skip(i + 1),
    decreases path.len(),
{
    if i == path.len() - 1 {
        assert(path.skip(i + 1) =~= Seq::<char>::empty());
    } else {
        assert(!is_sep(path.last()));
        lemma_file_name_after_sep(path.drop_last(), i);
        assert(path.drop_last().skip(i + 1).push(path.last()) =~= path.skip(i + 1));
    }
}

/// Without separators the whole path is the file name.
pub proof fn lemma_file_name_no_sep(path: Seq<char>)
    requires
        forall|j: int| 0 <= j < path.len() ==> !is_sep(#[trigger] path[j]),
    ensures
        file_name_of(path) =~= path,
    decreases path.len(),
{
    if path.len() > 0 {
        lemma_file_name_no_sep(path.drop_last());
        assert(path.drop_last().push(path.last()) =~= path);
    }
}

/// Index of the last `'.'` in `name`, `-1` if there is none.
pub open spec fn last_dot(name: Seq<char>) -> int
    decreases name.len(),
{
    if name.len() == 0 {
        -1
    } else if name.last() == '.' {
        name.len() - 1
    } else {
        last_dot(name.drop_last())
    }
}

/// The stem: what stands before the last dot, unless that dot is the first
/// character (a leading-dot name has no extension) or absent.
pub open spec fn stem_of(name: Seq<char>) -> Seq<char> {
    if last_dot(name) >= 1 {
        name.take(last_dot(name))
    } else {
        name
    }
}

/// The extension after the last dot, defaulting to `mp4` when a name carries
/// none.
pub open spec fn ext_of(name: Seq<char>) -> Seq<char> {
    if last_dot(name) >= 1 {
        name.skip(last_dot(name) + 1)
    } else {
        seq!['m', 'p', '4']
    }
}

pub proof fn lemma_last_dot_at(name: Seq<char>, i: int)
    requires
        0 <= i < name.len(),
        name[i] == '.',
        forall|j: int| i < j < name.len() ==> #[trigger] name[j] != '.',
    ensures
        last_dot(name) == i,
    decreases name.len(),
{
    if i < name.len() - 1 {
        lemma_last_dot_at(name.drop_last(), i);
    }
}

pub proof fn lemma_last_dot_none(name: Seq<char>)
    requires
        forall|j: int| 0 <= j < name.len() ==> #[trigger] name[j] != '.',
    ensures
        last_dot(name) == -1,
    decreases name.len(),
{
    if name.len() > 0 {
        lemma_last_dot_none(name.drop_last());
    }
}

// ---------------------------------------------------------------------------
// Decomposing a stem into base name and version chain.
// ---------------------------------------------------------------------------

/// The number of version-shaped tokens at the tail of the token list: the
/// scan walks from the right and stops for good at the first token holding a
/// non-digit.
pub open spec fn chain_len_of(toks: Seq<Seq<char>>) -> nat
    decreases toks.len(),
{
    if toks.len() == 0 {
        0
    } else if all_digits(toks.last()) {
        1 + chain_len_of(toks.drop_last())
    } else {
        0
    }
}

pub open spec fn stem_tokens(stem: Seq<char>) -> Seq<Seq<char>> {
    split_on(stem, '_')
}

/// A stem carries a version chain only if it has several tokens and at least
/// one of them anchors a base name: a single token is always a bare base, and
/// a stem of digit runs alone has nothing the scheme could call a base.
pub open spec fn stem_has_chain(stem: Seq<char>) -> bool {
    stem_tokens(stem).len() > 1 && chain_len_of(stem_tokens(stem)) < stem_tokens(stem).len()
}

pub open spec fn base_tokens_of(stem: Seq<char>) -> Seq<Seq<char>> {
    stem_tokens(stem).take(
        stem_tokens(stem).len() - chain_len_of(stem_tokens(stem)),
    )
}

pub open spec fn chain_tokens_of(stem: Seq<char>) -> Seq<Seq<char>> {
    if stem_has_chain(stem) {
        stem_tokens(stem).skip(
            stem_tokens(stem).len() - chain_len_of(stem_tokens(stem)),
        )
    } else {
        Seq::<Seq<char>>::empty()
    }
}

/// The base name: the stem itself when no chain is recognized, else the
/// leading tokens rejoined.
pub open spec fn base_of(stem: Seq<char>) -> Seq<char> {
    if stem_has_chain(stem) {
        join_with(base_tokens_of(stem), '_')
    } else {
        stem
    }
}

/// Every chain token must be a non-empty digit run whose value fits an
/// unsigned 32-bit integer; an empty token between separators or an
/// overflowing token is a validation error.
pub open spec fn chain_ok(stem: Seq<char>) -> bool {
    forall|k: int|
        0 <= k < chain_tokens_of(stem).len() ==> is_numeric_token(
            #[trigger] chain_tokens_of(stem)[k],
        ) && digits_val(chain_tokens_of(stem)[k]) <= u32::MAX
}

/// The version chain of a stem, oldest first.
pub open spec fn chain_of(stem: Seq<char>) -> Seq<nat> {
    chain_tokens_of(stem).map_values(|t: Seq<char>| digits_val(t))
}

/// Counting trailing digit-run tokens: the tail beyond `j` contributes one
/// chain slot each.
pub proof fn lemma_chain_len_split(toks: Seq<Seq<char>>, j: int)
    requires
        0 <= j <= toks.len(),
        forall|k: int| j <= k < toks.len() ==> all_digits(#[trigger] toks[k]),
    ensures
        chain_len_of(toks) == chain_len_of(toks.take(j)) + (toks.len() - j),
    decreases toks.len() - j,
{
    if j == toks.len() {
        assert(toks.take(j) =~~= toks);
    } else {
        assert(all_digits(toks.last()));
        lemma_chain_len_split(toks.drop_last(), j);
        assert(toks.drop_last().take(j) =~~= toks.take(j));
    }
}

// ---------------------------------------------------------------------------
// The executable parser.
// ---------------------------------------------------------------------------

/// The last separator position in `s`, if any.
fn last_sep_index(s: &Vec<char>) -> (r: Option<usize>)
    ensures
        match r {
            Some(i) => i < s@.len() && is_sep(s@[i as int]) && forall|j: int|
                i < j < s@.len() ==> !is_sep(#[trigger] s@[j]),
            None => forall|j: int| 0 <= j < s@.len() ==> !is_sep(#[trigger] s@[j]),
        },
{
    let mut i: usize = s.len();
    while i > 0
        invariant
            i <= s@.len(),
            forall|j: int| i <= j < s@.len() ==> !is_sep(#[trigger] s@[j]),
        decreases i,
    {
        i = i - 1;
        if s[i] == '/' || s[i] == '\\' {
            return Some(i);
        }
    }
    None
}

/// The file-name characters of `path`, per `file_name_of`.
fn file_name_chars(path: &Vec<char>) -> (r: Vec<char>)
    ensures
        r@ == file_name_of(path@),
{
    let n: usize = path.len();
    match last_sep_index(path) {
        Some(i) => {
            proof {
                lemma_file_name_after_sep(path@, i as int);
            }
            subrange_chars(path, i + 1, n)
        },
        None => {
            proof {
                lemma_file_name_no_sep(path@);
            }
            subrange_chars(path, 0, n)
        },
    }
}

/// Splits a file name into stem and extension characters.
fn stem_and_ext(name: &Vec<char>) -> (r: (Vec<char>, Vec<char>))
    ensures
        r.0@ == stem_of(name@),
        r.1@ == ext_of(name@),
{
    let n: usize = name.len();
    match last_index_of(name, '.') {
        Some(i) if i >= 1 => {
            proof {
                lemma_last_dot_at(name@, i as int);
            }
            (subrange_chars(name, 0, i), subrange_chars(name, i + 1, n))
        },
        r => {
            proof {
                match r {
                    Some(i) => {
                        lemma_last_dot_at(name@, i as int);
                    },
                    None => {
                        lemma_last_dot_none(name@);
                    },
                }
            }
            let mut ext: Vec<char> = Vec::new();
            ext.push('m');
            ext.push('p');
            ext.push('4');
            proof {
                assert(ext@ =~= seq!['m', 'p', '4']);
            }
            (subrange_chars(name, 0, n), ext)
        },
    }
}

/// Decomposes a file path into base name, extension and version chain.
///
/// Only the file name is considered; a missing extension defaults to `mp4`.
/// The stem splits on `_`: a single token, or a stem of digit runs alone, is
/// all base with an empty chain; otherwise the trailing digit-run tokens form
/// the chain, oldest first, and the rest rejoin as the base. A chain token
/// that is empty or does not fit an unsigned 32-bit integer is rejected.
#[verifier::loop_isolation(false)]
pub fn parse_filename_pattern(input_path: &str) -> (r: Result<(String, String, Vec<u32>), AppError>)
    ensures
        file_name_of(input_path@).len() == 0 ==> r matches Err(AppError::PathError(_)),
        file_name_of(input_path@).len() > 0 ==> {
            let stem = stem_of(file_name_of(input_path@));
            &&& (r is Ok <==> chain_ok(stem))
            &&& !chain_ok(stem) ==> (r matches Err(AppError::ValidationError(_)))
            &&& r matches Ok(t) ==> {
                &&& t.0@ == base_of(stem)
                &&& t.1@ == ext_of(file_name_of(input_path@))
                &&& t.2@.map_values(|v: u32| v as nat) == chain_of(stem)
            }
        },
{
    let path_chars = to_chars(input_path);
    let name = file_name_chars(&path_chars);
    if name.len() == 0 {
        return Err(AppError::PathError(String::from_str("cannot determine the file name")));
    }
    let (stem, ext_chars) = stem_and_ext(&name);
    let toks = split_chars(&stem, '_');
    proof {
        lemma_split_nonempty(stem@, '_');
    }
    let ghost tv = views_of(toks@);
    let n_toks: usize = toks.len();

    // Count the trailing digit-run tokens.
    let mut j: usize = n_toks;
    while j > 0 && chars_all_digits(&toks[j - 1])
        invariant
            j <= n_toks == toks@.len(),
            tv == views_of(toks@),
            forall|k: int| j <= k < tv.len() ==> all_digits(#[trigger] tv[k]),
        decreases j,
    {
        j = j - 1;
    }
    proof {
        lemma_chain_len_split(tv, j as int);
        if j > 0 {
            assert(!all_digits(tv[j - 1]));
            assert(tv.take(j as int).last() == tv[j - 1]);
            assert(chain_len_of(tv.take(j as int)) == 0);
        } else {
            assert(tv.take(0) =~~= Seq::<Seq<char>>::empty());
        }
        assert(chain_len_of(tv) == tv.len() - j);
    }

    if n_toks == 1 || j == 0 {
        proof {
            assert(!stem_has_chain(stem@));
            assert(chain_of(stem@) =~= Seq::<nat>::empty());
            assert(Seq::<u32>::empty().map_values(|v: u32| v as nat) =~= Seq::<nat>::empty());
        }
        return Ok((string_of_chars(&stem), string_of_chars(&ext_chars), Vec::<u32>::new()));
    }
    proof {
        assert(stem_has_chain(stem@));
        assert(chain_tokens_of(stem@) =~~= tv.skip(j as int));
    }

    // Read the chain values, oldest first.
    let mut chain: Vec<u32> = Vec::new();
    let mut idx: usize = j;
    while idx < n_toks
        invariant
            j <= idx <= n_toks == toks@.len(),
            tv == views_of(toks@),
            stem_has_chain(stem@),
            chain_tokens_of(stem@) == tv.skip(j as int),
            chain_len_of(tv) == tv.len() - j,
            forall|k: int|
                j <= k < idx ==> is_numeric_token(#[trigger] tv[k]) && digits_val(tv[k])
                    <= u32::MAX,
            chain@.len() == idx - j,
            forall|k: int| 0 <= k < chain@.len() ==> #[trigger] chain@[k] as nat == digits_val(
                tv[j + k],
            ),
        decreases n_toks - idx,
    {
        match parse_u32_digits(&toks[idx]) {
            Some(v) => {
                chain.push(v);
            },
            None => {
                proof {
                    assert(chain_tokens_of(stem@)[idx - j] == tv[idx as int]);
                    assert(!chain_ok(stem@));
                }
                return Err(AppError::ValidationError(String::from_str("invalid version token")));
            },
        }
        idx = idx + 1;
    }
    proof {
        assert(chain_ok(stem@));
        assert(chain@.map_values(|v: u32| v as nat) =~= chain_of(stem@));
    }

    // The base: the leading tokens rejoined.
    let mut base_toks: Vec<Vec<char>> = Vec::new();
    let mut k: usize = 0;
    while k < j
        invariant
            k <= j <= toks@.len(),
            tv == views_of(toks@),
            base_toks@.len() == k,
            forall|x: int| 0 <= x < k ==> (#[trigger] base_toks@[x])@ == tv[x],
        decreases j - k,
    {
        let t = subrange_chars(&toks[k], 0, toks[k].len());
        proof {
            assert(t@ =~= tv[k as int]);
        }
        base_toks.push(t);
        k = k + 1;
    }
    proof {
        assert forall|x: int| 0 <= x < j implies views_of(base_toks@)[x] == tv.take(j as int)[x]
            by {
            assert(views_of(base_toks@)[x] == base_toks@[x]@);
        }
        assert(views_of(base_toks@) =~~= tv.take(j as int));
        assert(base_tokens_of(stem@) =~~= tv.take(j as int));
    }
    let base_chars = join_chars(&base_toks, '_');
    Ok((string_of_chars(&base_chars), string_of_chars(&ext_chars), chain))
}

// ---------------------------------------------------------------------------
// Sanitizing free-text notes.
// ---------------------------------------------------------------------------

/// The sanitized form of a note: every character mapped through
/// `sanitize_char`, then white space trimmed from both ends.
pub open spec fn sanitize_spec(s: Seq<char>) -> Seq<char> {
    trimmed(s.map_values(|c: char| sanitize_char(c)))
}

/// Maps filesystem-reserved characters, path separators and control
/// characters to `_` and trims surrounding white space; everything else,
/// the colon included, passes through unchanged.
#[verifier::loop_isolation(false)]
pub fn sanitize_filename(filename: &str) -> (r: String)
    ensures
        r@ == sanitize_spec(filename@),
{
    let cs = to_chars(filename);
    let mut mapped: Vec<char> = Vec::new();
    let mut i: usize = 0;
    while i < cs.len()
        invariant
            i <= cs@.len(),
            mapped@ == cs@.take(i as int).map_values(|c: char| sanitize_char(c)),
        decreases cs.len() - i,
    {
        mapped.push(sanitize_char_exec(cs[i]));
        proof {
            assert(cs@.take(i + 1).map_values(|c: char| sanitize_char(c)) =~= cs@.take(
                i as int,
            ).map_values(|c: char| sanitize_char(c)).push(sanitize_char(cs@[i as int])));
        }
        i = i + 1;
    }
    proof {
        assert(cs@.take(cs@.len() as int) =~= cs@);
    }
    let t = crate::strops::trim_chars(&mapped);
    string_of_chars(&t)
}

// ---------------------------------------------------------------------------
// Scanning a directory listing for the highest version at one lineage depth.
// ---------------------------------------------------------------------------

/// The views of a list of file names.
pub open spec fn names_of(es: Seq<String>) -> Seq<Seq<char>> {
    Seq::new(es.len(), |i: int| es[i]@)
}

/// What a matching entry must start with: `base_` at the root depth, else
/// `base_prefix_`.
pub open spec fn expected_prefix(base: Seq<char>, prefix: Seq<char>) -> Seq<char> {
    if prefix.len() == 0 {
        base + seq!['_']
    } else {
        base + seq!['_'] + prefix + seq!['_']
    }
}

/// An entry matches when it carries the expected prefix, the `.ext` suffix,
/// and a non-empty middle part between the two.
pub open spec fn entry_matches(name: Seq<char>, base: Seq<char>, ext: Seq<char>, prefix: Seq<char>) -> bool {
    expected_prefix(base, prefix).is_prefix_of(name) && (seq!['.'] + ext).is_suffix_of(name)
        && name.len() > expected_prefix(base, prefix).len() + 1 + ext.len()
}

/// The middle part of a matching entry: version number, then an optional
/// free-text note.
pub open spec fn middle_of(name: Seq<char>, base: Seq<char>, ext: Seq<char>, prefix: Seq<char>) -> Seq<char> {
    name.subrange(expected_prefix(base, prefix).len() as int, name.len() - ext.len() - 1)
}

/// The version the middle part claims: its first token, when that is a digit
/// run fitting an unsigned 32-bit integer.
pub open spec fn version_token_value(mid: Seq<char>) -> Option<nat> {
    let t = split_on(mid, '_')[0];
    if is_numeric_token(t) && digits_val(t) <= u32::MAX {
        Some(digits_val(t))
    } else {
        None
    }
}

/// The version an entry contributes to the scan, if any.
pub open spec fn entry_version(name: Seq<char>, base: Seq<char>, ext: Seq<char>, prefix: Seq<char>) -> Option<nat> {
    if entry_matches(name, base, ext, prefix) {
        version_token_value(middle_of(name, base, ext, prefix))
    } else {
        None
    }
}

/// The highest version among the entries at this lineage depth, `0` when
/// none matches.
pub open spec fn scan_max(names: Seq<Seq<char>>, base: Seq<char>, ext: Seq<char>, prefix: Seq<char>) -> nat
    decreases names.len(),
{
    if names.len() == 0 {
        0
    } else {
        let rest = scan_max(names.drop_last(), base, ext, prefix);
        match entry_version(names.last(), base, ext, prefix) {
            Some(v) => if v > rest {
                v
            } else {
                rest
            },
            None => rest,
        }
    }
}

/// The highest existing version number among `entries` at the lineage depth
/// named by `version_prefix` (empty at the root depth), `0` when none
/// matches.
///
/// The caller passes the names of the directory's regular files; an entry it
/// could not read is simply left out, degrading to "not observed".
#[verifier::loop_isolation(false)]
pub fn find_max_version_number(base_name: &str, ext: &str, version_prefix: &str, entries: &Vec<String>) -> (r: u32)
    ensures
        r as nat == scan_max(names_of(entries@), base_name@, ext@, version_prefix@),
{
    let base_c = to_chars(base_name);
    let ext_c = to_chars(ext);
    let pre_c = to_chars(version_prefix);

    let mut ep: Vec<char> = Vec::new();
    append_chars(&mut ep, &base_c);
    ep.push('_');
    if pre_c.len() > 0 {
        append_chars(&mut ep, &pre_c);
        ep.push('_');
    }
    proof {
        assert(ep@ =~= expected_prefix(base_name@, version_prefix@));
    }

    let mut suf: Vec<char> = Vec::new();
    suf.push('.');
    append_chars(&mut suf, &ext_c);
    proof {
        assert(suf@ =~= seq!['.'] + ext@);
    }

    let mut maxv: u32 = 0;
    let mut idx: usize = 0;
    while idx < entries.len()
        invariant
            idx <= entries@.len(),
            maxv as nat == scan_max(names_of(entries@).take(idx as int), base_name@, ext@, version_prefix@),
        decreases entries.len() - idx,
    {
        let ghost pre_names = names_of(entries@).take(idx as int);
        let ghost cur_names = names_of(entries@).take(idx + 1);
        proof {
            assert(cur_names.drop_last() =~~= pre_names);
            assert(cur_names.last() == entries@[idx as int]@);
        }
        let name_c = to_chars(entries[idx].as_str());
        if chars_has_prefix(&name_c, &ep) && chars_has_suffix(&name_c, &suf) && name_c.len()
            > ep.len() && name_c.len() - ep.len() > suf.len() {
            proof {
                assert(entry_matches(name_c@, base_name@, ext@, version_prefix@));
            }
            let mid = subrange_chars(&name_c, ep.len(), name_c.len() - suf.len());
            proof {
                assert(mid@ =~= middle_of(name_c@, base_name@, ext@, version_prefix@));
            }
            let parts = split_chars(&mid, '_');
            proof {
                lemma_split_nonempty(mid@, '_');
                assert(views_of(parts@)[0] == split_on(mid@, '_')[0]);
            }
            match parse_u32_digits(&parts[0]) {
                Some(v) => {
                    if v > maxv {
                        maxv = v;
                    }
                },
                None => {},
            }
        } else {
            proof {
                assert(!entry_matches(name_c@, base_name@, ext@, version_prefix@));
            }
        }
        idx = idx + 1;
    }
    proof {
        assert(names_of(entries@).take(entries@.len() as int) =~~= names_of(entries@));
    }
    maxv
}

// ---------------------------------------------------------------------------
// Assembling the next output name.
// ---------------------------------------------------------------------------

/// The note as it appears in a file name: sanitized, with every remaining
/// `_` turned into `-` so it can never be misread as chain segments, and
/// dropped entirely when nothing survives.
pub open spec fn note_of(notes: Option<Seq<char>>) -> Option<Seq<char>> {
    match notes {
        None => None,
        Some(s) => {
            let t = sanitize_spec(s).map_values(|c: char| if c == '_' { '-' } else { c });
            if t.len() == 0 {
                None
            } else {
                Some(t)
            }
        },
    }
}

/// The version chain serialized for the scanner: decimal values joined with
/// `_`, empty at the root depth.
pub open spec fn chain_prefix(chain: Seq<nat>) -> Seq<char> {
    join_with(chain.map_values(|v: nat| dec_string(v)), '_')
}

/// The stem of the next output name: base, chain, new version and an
/// optional note, joined with `_`.
pub open spec fn assemble_stem(base: Seq<char>, chain: Seq<nat>, next: nat, note: Option<Seq<char>>) -> Seq<char> {
    let parts = seq![base] + chain.map_values(|v: nat| dec_string(v)) + seq![dec_string(next)]
        + (match note {
        Some(n) => seq![n],
        None => Seq::<Seq<char>>::empty(),
    });
    join_with(parts, '_')
}

/// The full next output name, extension included.
pub open spec fn assemble_name(base: Seq<char>, chain: Seq<nat>, next: nat, note: Option<Seq<char>>, ext: Seq<char>) -> Seq<char> {
    assemble_stem(base, chain, next, note) + seq!['.'] + ext
}

/// The full path the generator produces for `path` against the directory
/// listing `names`: the source's directory prefix, then the assembled name
/// with a version one above the highest the scan observed.
pub open spec fn generated_name(path: Seq<char>, notes: Option<Seq<char>>, names: Seq<Seq<char>>) -> Seq<char> {
    let name = file_name_of(path);
    let stem = stem_of(name);
    let ext = ext_of(name);
    let base = base_of(stem);
    let chain = chain_of(stem);
    let maxv = scan_max(names, base, ext, chain_prefix(chain));
    dir_prefix_of(path) + assemble_name(base, chain, maxv + 1, note_of(notes), ext)
}

/// The next non-colliding output path for a trim of `input_path`, given the
/// names of the regular files beside it.
///
/// The produced version is one above the highest the scan observed at the
/// source's lineage depth, so the name differs from every sibling the
/// scheme recognizes at that depth.
#[verifier::loop_isolation(false)]
pub fn generate_next_filename(input_path: &str, notes: Option<&str>, entries: &Vec<String>) -> (r: Result<String, AppError>)
    ensures
        file_name_of(input_path@).len() == 0 ==> r matches Err(AppError::PathError(_)),
        file_name_of(input_path@).len() > 0 ==> {
            let stem = stem_of(file_name_of(input_path@));
            let maxv = scan_max(
                names_of(entries@),
                base_of(stem),
                ext_of(file_name_of(input_path@)),
                chain_prefix(chain_of(stem)),
            );
            &&& !chain_ok(stem) ==> (r matches Err(AppError::ValidationError(_)))
            &&& chain_ok(stem) && maxv == u32::MAX ==> (r matches Err(
                AppError::ValidationError(_),
            ))
            &&& (r is Ok <==> chain_ok(stem) && maxv < u32::MAX)
            &&& r matches Ok(p) ==> p@ == generated_name(
                input_path@,
                match notes {
                    Some(n) => Some(n@),
                    None => None,
                },
                names_of(entries@),
            )
        },
{
    let (base, ext, chain) = match parse_filename_pattern(input_path) {
        Ok(p) => p,
        Err(e) => {
            return Err(e);
        },
    };
    let ghost stem = stem_of(file_name_of(input_path@));

    // Sanitize the note; an empty survivor is treated as absent.
    let note_chars: Option<Vec<char>> = match notes {
        Some(n) => {
            let s = sanitize_filename(n);
            let sc = to_chars(s.as_str());
            let mut rc: Vec<char> = Vec::new();
            let mut i: usize = 0;
            while i < sc.len()
                invariant
                    i <= sc@.len(),
                    rc@ == sc@.take(i as int).map_values(|c: char| if c == '_' { '-' } else { c }),
                decreases sc.len() - i,
            {
                let c = sc[i];
                rc.push(if c == '_' { '-' } else { c });
                proof {
                    assert(sc@.take(i + 1).map_values(
                        |c: char| if c == '_' { '-' } else { c },
                    ) =~= sc@.take(i as int).map_values(
                        |c: char| if c == '_' { '-' } else { c },
                    ).push(if sc@[i as int] == '_' { '-' } else { sc@[i as int] }));
                }
                i = i + 1;
            }
            proof {
                assert(sc@.take(sc@.len() as int) =~= sc@);
            }
            if rc.len() == 0 {
                None
            } else {
                Some(rc)
            }
        },
        None => None,
    };
    let ghost note_view = match notes {
        Some(n) => Some(n@),
        None => None::<Seq<char>>,
    };
    proof {
        match &note_chars {
            Some(rc) => {
                assert(note_of(note_view) == Some(rc@));
            },
            None => {
                assert(note_of(note_view) is None);
            },
        }
    }

    // The chain serialized for the scanner.
    let mut chain_toks: Vec<Vec<char>> = Vec::new();
    let mut k: usize = 0;
    while k < chain.len()
        invariant
            k <= chain@.len(),
            chain_toks@.len() == k,
            forall|x: int| 0 <= x < k ==> (#[trigger] chain_toks@[x])@ == dec_string(
                chain@[x] as nat,
            ),
        decreases chain.len() - k,
    {
        chain_toks.push(format_u32(chain[k]));
        k = k + 1;
    }
    let ghost chain_vals = chain@.map_values(|v: u32| v as nat);
    proof {
        assert(chain_vals == chain_of(stem));
        assert forall|x: int| 0 <= x < chain_toks@.len() implies views_of(chain_toks@)[x]
            == chain_vals.map_values(|v: nat| dec_string(v))[x] by {
            assert(views_of(chain_toks@)[x] == chain_toks@[x]@);
        }
        assert(views_of(chain_toks@) =~~= chain_vals.map_values(|v: nat| dec_string(v)));
    }
    let prefix_chars = join_chars(&chain_toks, '_');
    proof {
        assert(prefix_chars@ == chain_prefix(chain_of(stem)));
    }
    let prefix_str = string_of_chars(&prefix_chars);

    let maxv = find_max_version_number(base.as_str(), ext.as_str(), prefix_str.as_str(), entries);
    if maxv == u32::MAX {
        return Err(AppError::ValidationError(String::from_str("version number overflow")));
    }
    let next: u32 = maxv + 1;

    // Assemble the new stem: base, chain, next version, optional note.
    let mut parts: Vec<Vec<char>> = Vec::new();
    parts.push(to_chars(base.as_str()));
    let mut k2: usize = 0;
    while k2 < chain.len()
        invariant
            k2 <= chain@.len(),
            parts@.len() == 1 + k2,
            parts@[0]@ == base@,
            forall|x: int| 0 <= x < k2 ==> (#[trigger] parts@[1 + x])@ == dec_string(
                chain@[x] as nat,
            ),
        decreases chain.len() - k2,
    {
        parts.push(format_u32(chain[k2]));
        k2 = k2 + 1;
    }
    let ghost parts_after_chain = parts@;
    parts.push(format_u32(next));
    let ghost parts_after_next = parts@;
    match note_chars {
        Some(nc) => {
            parts.push(nc);
        },
        None => {},
    }
    let ghost spec_parts = seq![base_of(stem)] + chain_vals.map_values(|v: nat| dec_string(v))
        + seq![dec_string(next as nat)] + (match note_of(note_view) {
        Some(n) => seq![n],
        None => Seq::<Seq<char>>::empty(),
    });
    proof {
        let n = chain_vals.len() as int;
        assert forall|x: int| 0 <= x < parts@.len() implies views_of(parts@)[x] == spec_parts[x]
            by {
            assert(views_of(parts@)[x] == parts@[x]@);
            if x < 1 + n {
                assert(parts@[x] == parts_after_next[x]);
                assert(parts_after_next[x] == parts_after_chain[x]);
                if x == 0 {
                    assert(parts_after_chain[0]@ == base_of(stem));
                } else {
                    assert(parts_after_chain[1 + (x - 1)]@ == dec_string(chain@[x - 1] as nat));
                    assert(parts_after_chain[x]@ == dec_string(chain@[x - 1] as nat));
                    assert(spec_parts[x] == chain_vals.map_values(|v: nat| dec_string(v))[x - 1]);
                    assert(chain_vals[x - 1] == chain@[x - 1] as nat);
                }
            } else if x == 1 + n {
                assert(parts@[x] == parts_after_next[x]);
                assert(parts_after_next[x]@ == dec_string(next as nat));
            } else {
                assert(x == 2 + n);
                assert(note_of(note_view) matches Some(nv) && parts@[x]@ == nv);
            }
        }
        assert(views_of(parts@) =~~= spec_parts);
    }
    let stem_out = join_chars(&parts, '_');
    proof {
        assert(stem_out@ == assemble_stem(
            base_of(stem),
            chain_of(stem),
            next as nat,
            note_of(note_view),
        ));
    }

    let mut name_out = stem_out;
    name_out.push('.');
    let ext_chars = to_chars(ext.as_str());
    append_chars(&mut name_out, &ext_chars);
    proof {
        assert(name_out@ =~= assemble_name(
            base_of(stem),
            chain_of(stem),
            next as nat,
            note_of(note_view),
            ext_of(file_name_of(input_path@)),
        ));
    }

    // Put the name beside the source.
    let path_chars = to_chars(input_path);
    let dir_len: usize = match last_sep_index(&path_chars) {
        Some(i) => {
            proof {
                lemma_file_name_after_sep(path_chars@, i as int);
            }
            i + 1
        },
        None => {
            proof {
                lemma_file_name_no_sep(path_chars@);
            }
            0
        },
    };
    proof {
        assert(path_chars@.take(dir_len as int) =~= dir_prefix_of(input_path@));
    }
    let mut full = subrange_chars(&path_chars, 0, dir_len);
    append_chars(&mut full, &name_out);
    proof {
        assert(full@ == generated_name(input_path@, note_view, names_of(entries@)));
    }
    Ok(string_of_chars(&full))
}

// ---------------------------------------------------------------------------
// Laws of the scheme.
// ---------------------------------------------------------------------------

/// A stem whose tokens beyond `nb` are all digit runs, anchored by a
/// non-digit-run token at `nb - 1`, decomposes at exactly `nb`.
proof fn lemma_parse_decomposition(stem: Seq<char>, nb: int)
    requires
        1 <= nb < stem_tokens(stem).len(),
        !all_digits(stem_tokens(stem)[nb - 1]),
        forall|k: int|
            nb <= k < stem_tokens(stem).len() ==> all_digits(#[trigger] stem_tokens(stem)[k]),
    ensures
        stem_has_chain(stem),
        base_tokens_of(stem) == stem_tokens(stem).take(nb),
        chain_tokens_of(stem) == stem_tokens(stem).skip(nb),
{
    let toks = stem_tokens(stem);
    lemma_chain_len_split(toks, nb);
    assert(toks.take(nb).last() == toks[nb - 1]);
    assert(chain_len_of(toks.take(nb)) == 0);
    assert(chain_len_of(toks) == toks.len() - nb);
    assert(base_tokens_of(stem) =~~= toks.take(nb));
    assert(chain_tokens_of(stem) =~~= toks.skip(nb));
}

/// For every file name of the shape `{base}(_{n})+.{ext}` — one or more
/// trailing digit-run tokens behind leading tokens of which the last holds a
/// non-digit — the parser returns exactly the trailing tokens' values as the
/// chain, in their original order, and the leading tokens rejoined with `_`
/// as the base.
pub proof fn lemma_parser_on_versioned_names(
    base_toks: Seq<Seq<char>>,
    num_toks: Seq<Seq<char>>,
    ext: Seq<char>,
)
    requires
        base_toks.len() >= 1,
        num_toks.len() >= 1,
        !all_digits(base_toks.last()),
        forall|k: int|
            0 <= k < num_toks.len() ==> is_numeric_token(#[trigger] num_toks[k]) && digits_val(
                num_toks[k],
            ) <= u32::MAX,
        forall|k: int, i: int|
            0 <= k < base_toks.len() && 0 <= i < base_toks[k].len() ==> #[trigger] base_toks[k][i]
                != '_' && !is_sep(base_toks[k][i]),
        forall|i: int| 0 <= i < ext.len() ==> ext[i] != '.' && !is_sep(#[trigger] ext[i]),
    ensures
        ({
            let stem = join_with(base_toks + num_toks, '_');
            let name = stem + seq!['.'] + ext;
            &&& file_name_of(name) == name
            &&& stem_of(name) == stem
            &&& ext_of(name) == ext
            &&& chain_ok(stem)
            &&& base_of(stem) == join_with(base_toks, '_')
            &&& chain_of(stem) == num_toks.map_values(|t: Seq<char>| digits_val(t))
        }),
{
    let toks = base_toks + num_toks;
    let stem = join_with(toks, '_');
    let name = stem + seq!['.'] + ext;
    assert forall|k: int, i: int|
        0 <= k < toks.len() && 0 <= i < toks[k].len() implies #[trigger] toks[k][i] != '_'
        && !is_sep(toks[k][i]) && toks[k][i] != '.' || k < base_toks.len() by {
        if k >= base_toks.len() {
            assert(toks[k] == num_toks[k - base_toks.len()]);
            assert(is_digit(toks[k][i]));
        } else {
            assert(toks[k] == base_toks[k]);
        }
    }
    assert forall|k: int, i: int|
        0 <= k < toks.len() && 0 <= i < toks[k].len() implies #[trigger] toks[k][i] != '_'
        && !is_sep(toks[k][i]) by {
        if k >= base_toks.len() {
            assert(toks[k] == num_toks[k - base_toks.len()]);
            assert(is_digit(toks[k][i]));
        } else {
            assert(toks[k] == base_toks[k]);
        }
    }
    lemma_split_join(toks, '_');
    assert(stem_tokens(stem) == toks);

    // No separators stand anywhere in the name, so it is its own file name.
    lemma_join_no_char(toks, '_', '/');
    lemma_join_no_char(toks, '_', '\\');
    assert forall|i: int| 0 <= i < name.len() implies !is_sep(#[trigger] name[i]) by {
        if i < stem.len() {
            assert(name[i] == stem[i]);
        } else if i > stem.len() {
            assert(name[i] == ext[i - stem.len() - 1]);
        }
    }
    lemma_file_name_no_sep(name);

    // The last dot is the one before the extension.
    assert(name[stem.len() as int] == '.');
    assert forall|j: int| stem.len() < j < name.len() implies #[trigger] name[j] != '.' by {
        assert(name[j] == ext[j - stem.len() - 1]);
    }
    lemma_last_dot_at(name, stem.len() as int);
    assert(stem.len() >= 1);
    assert(stem_of(name) =~= stem);
    assert(ext_of(name) =~= ext);

    lemma_parse_decomposition(stem, base_toks.len() as int);
    assert(base_tokens_of(stem) =~~= base_toks);
    assert(chain_tokens_of(stem) =~~= num_toks);
    assert(chain_of(stem) =~= num_toks.map_values(|t: Seq<char>| digits_val(t)));
}

/// A stem of digit runs alone has nothing the scheme can call a base, so the
/// parser treats the whole stem as the base with an empty chain.
pub proof fn lemma_parser_on_numeric_stems(stem: Seq<char>)
    requires
        forall|k: int|
            0 <= k < stem_tokens(stem).len() ==> all_digits(#[trigger] stem_tokens(stem)[k]),
    ensures
        base_of(stem) == stem,
        chain_of(stem).len() == 0,
        chain_ok(stem),
{
    let toks = stem_tokens(stem);
    lemma_split_nonempty(stem, '_');
    lemma_chain_len_split(toks, 0);
    assert(toks.take(0) =~~= Seq::<Seq<char>>::empty());
    assert(chain_len_of(toks) == toks.len());
    assert(!stem_has_chain(stem));
}

/// Round trip: assembling a name from a base, a chain and a new version,
/// with no note, and parsing it back yields the chain extended by exactly
/// that version.
///
/// The base must be one the parser can anchor on: its last `_`-token holds a
/// non-digit. An all-digit base such as `1_2` re-parses as a bare stem
/// instead, by the scheme's own design.
pub proof fn lemma_generate_parse_round_trip(
    base: Seq<char>,
    chain: Seq<nat>,
    next: nat,
    ext: Seq<char>,
)
    requires
        base.len() > 0,
        !all_digits(stem_tokens(base).last()),
        forall|i: int| 0 <= i < base.len() ==> !is_sep(#[trigger] base[i]),
        forall|k: int| 0 <= k < chain.len() ==> #[trigger] chain[k] <= u32::MAX,
        next <= u32::MAX,
        forall|i: int| 0 <= i < ext.len() ==> ext[i] != '.' && !is_sep(#[trigger] ext[i]),
    ensures
        ({
            let name = assemble_name(base, chain, next, None, ext);
            &&& file_name_of(name) == name
            &&& stem_of(name) == assemble_stem(base, chain, next, None)
            &&& ext_of(name) == ext
            &&& chain_ok(stem_of(name))
            &&& base_of(stem_of(name)) == base
            &&& chain_of(stem_of(name)) == chain.push(next)
        }),
{
    let base_toks = stem_tokens(base);
    let chain_strs = chain.map_values(|v: nat| dec_string(v));
    let num_toks = chain_strs.push(dec_string(next));
    lemma_split_nonempty(base, '_');
    crate::text::lemma_split_tokens_no_sep(base, '_');
    lemma_split_tokens_preserve(base, '_', '/');
    lemma_split_tokens_preserve(base, '_', '\\');
    assert forall|k: int|
        0 <= k < num_toks.len() implies is_numeric_token(#[trigger] num_toks[k]) && digits_val(
        num_toks[k],
    ) <= u32::MAX by {
        if k < chain_strs.len() {
            assert(num_toks[k] == dec_string(chain[k]));
            lemma_dec_string_digits(chain[k]);
            lemma_dec_string_val(chain[k]);
        } else {
            assert(num_toks[k] == dec_string(next));
            lemma_dec_string_digits(next);
            lemma_dec_string_val(next);
        }
    }
    assert(!all_digits(base_toks.last()));
    lemma_parser_on_versioned_names(base_toks, num_toks, ext);

    // The assembled stem is the joined token list of the round-trip shape.
    let parts = seq![base] + chain_strs + seq![dec_string(next)];
    assert(parts =~~= seq![base] + num_toks);
    lemma_join_append(seq![base], num_toks, '_');
    assert(join_with(seq![base], '_') == base);
    lemma_join_append(base_toks, num_toks, '_');
    lemma_join_split(base, '_');
    assert(join_with(base_toks, '_') == base);
    assert(assemble_stem(base, chain, next, None) == join_with(parts, '_'));
    assert(join_with(parts, '_') == join_with(base_toks + num_toks, '_'));
    assert(assemble_name(base, chain, next, None, ext) == join_with(base_toks + num_toks, '_')
        + seq!['.'] + ext);

    assert(chain_of(stem_of(assemble_name(base, chain, next, None, ext))) =~= chain.push(next))
        by {
        let got = num_toks.map_values(|t: Seq<char>| digits_val(t));
        assert forall|k: int| 0 <= k < got.len() implies got[k] == chain.push(next)[k] by {
            if k < chain.len() {
                assert(num_toks[k] == dec_string(chain[k]));
                lemma_dec_string_val(chain[k]);
            } else {
                assert(num_toks[k] == dec_string(next));
                lemma_dec_string_val(next);
            }
        }
    }
}

/// Idempotent safety: once the name the generator produced stands in the
/// directory, the very next scan at the same lineage depth reports exactly
/// its version, so a second run's version strictly exceeds the first's.
pub proof fn lemma_second_run_version_increases(
    names: Seq<Seq<char>>,
    base: Seq<char>,
    chain: Seq<nat>,
    note: Option<Seq<char>>,
    ext: Seq<char>,
)
    requires
        scan_max(names, base, ext, chain_prefix(chain)) < u32::MAX,
    ensures
        ({
            let m1 = scan_max(names, base, ext, chain_prefix(chain));
            let name1 = assemble_name(base, chain, m1 + 1, note, ext);
            scan_max(names.push(name1), base, ext, chain_prefix(chain)) == m1 + 1
        }),
{
    let prefix = chain_prefix(chain);
    let m1 = scan_max(names, base, ext, prefix);
    let next = m1 + 1;
    let chain_strs = chain.map_values(|v: nat| dec_string(v));
    let tail = seq![dec_string(next)] + (match note {
        Some(n) => seq![n],
        None => Seq::<Seq<char>>::empty(),
    });
    let mid = join_with(tail, '_');
    let stem1 = assemble_stem(base, chain, next, note);
    let name1 = assemble_name(base, chain, next, note, ext);
    let ep = expected_prefix(base, prefix);

    // The assembled stem is the expected prefix followed by the middle part.
    assert(stem1 == ep + mid) by {
        let parts = seq![base] + chain_strs + tail;
        let aparts = seq![base] + chain.map_values(|v: nat| dec_string(v)) + seq![
            dec_string(next),
        ] + (match note {
            Some(n) => seq![n],
            None => Seq::<Seq<char>>::empty(),
        });
        assert(aparts =~~= parts);
        assert(stem1 == join_with(parts, '_'));
        if chain.len() == 0 {
            assert(chain_strs.len() == 0);
            assert(prefix == join_with(Seq::<Seq<char>>::empty(), '_'));
            assert(prefix.len() == 0);
            assert(parts =~~= seq![base] + tail);
            lemma_join_append(seq![base], tail, '_');
            assert(join_with(seq![base], '_') == base);
            assert(ep == base + seq!['_']);
            assert(base + seq!['_'] + mid =~= ep + mid);
        } else {
            assert(parts =~~= (seq![base] + chain_strs) + tail);
            lemma_join_append(seq![base] + chain_strs, tail, '_');
            lemma_join_append(seq![base], chain_strs, '_');
            assert(join_with(seq![base], '_') == base);
            assert(join_with(seq![base] + chain_strs, '_') =~= base + seq!['_'] + prefix);
            assert(ep == base + seq!['_'] + prefix + seq!['_']);
            assert(base + seq!['_'] + prefix + seq!['_'] + mid =~= ep + mid);
        }
    }
    assert(name1 =~= ep + mid + seq!['.'] + ext);

    // The new name matches the scan's pattern and claims exactly `next`.
    lemma_dec_string_digits(next);
    lemma_dec_string_val(next);
    assert(mid.len() >= 1) by {
        if note is Some {
            lemma_join_append(
                seq![dec_string(next)],
                seq![note.unwrap()],
                '_',
            );
            assert(join_with(seq![dec_string(next)], '_') == dec_string(next));
        }
    }
    assert(entry_matches(name1, base, ext, prefix)) by {
        assert(name1.subrange(0, ep.len() as int) =~= ep);
        assert(name1.subrange(name1.len() - (seq!['.'] + ext).len(), name1.len() as int)
            =~= seq!['.'] + ext);
    }
    assert(middle_of(name1, base, ext, prefix) =~= mid);
    assert(split_on(mid, '_')[0] == dec_string(next)) by {
        assert forall|i: int|
            0 <= i < dec_string(next).len() implies #[trigger] dec_string(next)[i] != '_' by {
            assert(is_digit(dec_string(next)[i]));
        }
        match note {
            Some(n) => {
                lemma_join_append(seq![dec_string(next)], seq![n], '_');
                assert(join_with(seq![dec_string(next)], '_') == dec_string(next));
                assert(join_with(seq![n], '_') == n);
                assert(mid =~= dec_string(next) + seq!['_'] + n);
                crate::text::lemma_split_append(dec_string(next), n, '_');
                crate::text::lemma_split_no_sep(dec_string(next), '_');
            },
            None => {
                assert(mid == dec_string(next));
                crate::text::lemma_split_no_sep(mid, '_');
            },
        }
    }
    assert(entry_version(name1, base, ext, prefix) == Some(next));

    // One more entry in the scan: the maximum is now exactly `next`.
    assert(names.push(name1).drop_last() =~~= names);
    assert(names.push(name1).last() == name1);
}

} // verus!
