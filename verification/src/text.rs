//! Character-level text utilities: conversions between `String` and
//! `Vec<char>`, ASCII case folding, whitespace trimming, and line splitting.
//!
//! All text handled by the library is modelled as a sequence of characters
//! (`Seq<char>`), matching the view vstd gives to `str` and `String`.

use vstd::prelude::*;

verus! {

/// Relies on `str::chars` and `Iterator::collect` from std: yields exactly
/// the characters of `s`, in order.
#[verifier::external_body]
pub(crate) fn chars_vec(s: &str) -> (v: Vec<char>)
    ensures
        v@ == s@,
{
    s.chars().collect()
}

/// Relies on `String`'s `FromIterator<char>` impl from std: builds the string
/// holding exactly these characters, in order.
#[verifier::external_body]
pub(crate) fn string_from_chars(v: &Vec<char>) -> (s: String)
    ensures
        s@ == v@,
{
    v.iter().collect()
}

/// ASCII case folding of one character: uppercase ASCII letters map to their
/// lowercase counterparts, all other characters are unchanged.
///
/// The fold is deliberately ASCII-only and character-for-character: it keeps
/// this spec concrete (no appeal to an outside folding routine), and a
/// position in the folded text is always the same position in the original
/// text, which full Unicode folding does not guarantee (its result can have
/// a different length). Non-ASCII characters therefore compare exactly even
/// in case-insensitive searches.
pub open spec fn lower_char(c: char) -> char {
    if 65 <= c as u32 && c as u32 <= 90 {
        ((c as u32) + 32) as char
    } else {
        c
    }
}

/// The sequence with every character case-folded by [`lower_char`].
pub open spec fn lower_seq(s: Seq<char>) -> Seq<char> {
    s.map_values(|c: char| lower_char(c))
}

/// Executable ASCII case folding of one character.
pub fn to_lower_char(c: char) -> (r: char)
    ensures
        r == lower_char(c),
{
    match c {
        'A' => 'a',
        'B' => 'b',
        'C' => 'c',
        'D' => 'd',
        'E' => 'e',
        'F' => 'f',
        'G' => 'g',
        'H' => 'h',
        'I' => 'i',
        'J' => 'j',
        'K' => 'k',
        'L' => 'l',
        'M' => 'm',
        'N' => 'n',
        'O' => 'o',
        'P' => 'p',
        'Q' => 'q',
        'R' => 'r',
        'S' => 's',
        'T' => 't',
        'U' => 'u',
        'V' => 'v',
        'W' => 'w',
        'X' => 'x',
        'Y' => 'y',
        'Z' => 'z',
        _ => c,
    }
}

/// Case-fold every character of `v`.
pub fn lower_chars(v: &Vec<char>) -> (r: Vec<char>)
    ensures
        r@ == lower_seq(v@),
{
    let mut out: Vec<char> = Vec::new();
    let mut i: usize = 0;
    while i < v.len()
        invariant
            i <= v.len(),
            out@ == lower_seq(v@.take(i as int)),
        decreases v.len() - i,
    {
        out.push(to_lower_char(v[i]));
        proof {
            assert(v@.take(i + 1 as int).map_values(|c: char| lower_char(c)) =~= v@.take(
                i as int,
            ).map_values(|c: char| lower_char(c)).push(lower_char(v@[i as int])));
        }
        i = i + 1;
    }
    proof {
        assert(v@.take(v@.len() as int) =~= v@);
    }
    out
}

/// The case-folded form of a sequence under the given case rule: unchanged
/// when case-sensitive, folded by [`lower_seq`] otherwise.
pub open spec fn fold_case(s: Seq<char>, case_sensitive: bool) -> Seq<char> {
    if case_sensitive {
        s
    } else {
        lower_seq(s)
    }
}

/// The Unicode white-space characters, as listed for `char::is_whitespace`.
pub open spec fn is_space(c: char) -> bool {
    c == ' ' || c == '\t' || c == '\n' || c == '\r' || c == '\u{0B}' || c == '\u{0C}' || c
        == '\u{85}' || c == '\u{A0}' || c == '\u{1680}' || (0x2000 <= c as u32 && c as u32
        <= 0x200A) || c == '\u{2028}' || c == '\u{2029}' || c == '\u{202F}' || c == '\u{205F}' || c
        == '\u{3000}'
}

/// Executable test for [`is_space`].
pub fn is_space_char(c: char) -> (r: bool)
    ensures
        r == is_space(c),
{
    let u = c as u32;
    u == 0x20 || u == 0x09 || u == 0x0A || u == 0x0D || u == 0x0B || u == 0x0C || u == 0x85 || u
        == 0xA0 || u == 0x1680 || (0x2000 <= u && u <= 0x200A) || u == 0x2028 || u == 0x2029 || u
        == 0x202F || u == 0x205F || u == 0x3000
}

/// `s` with leading white space removed.
pub open spec fn trim_start(s: Seq<char>) -> Seq<char>
    decreases s.len(),
{
    if s.len() > 0 && is_space(s[0]) {
        trim_start(s.drop_first())
    } else {
        s
    }
}

/// `s` with trailing white space removed.
pub open spec fn trim_end(s: Seq<char>) -> Seq<char>
    decreases s.len(),
{
    if s.len() > 0 && is_space(s.last()) {
        trim_end(s.drop_last())
    } else {
        s
    }
}

/// `s` with both leading and trailing white space removed.
pub open spec fn trim(s: Seq<char>) -> Seq<char> {
    trim_end(trim_start(s))
}

proof fn lemma_trim_start_skip(s: Seq<char>, i: int)
    requires
        0 <= i <= s.len(),
        forall|j: int| 0 <= j < i ==> is_space(s[j]),
        i < s.len() ==> !is_space(s[i]),
    ensures
        trim_start(s) == s.skip(i),
    decreases i,
{
    if i == 0 {
        assert(s.skip(0) =~= s);
    } else {
        assert(is_space(s[0]));
        lemma_trim_start_skip(s.drop_first(), i - 1);
        assert(s.drop_first().skip(i - 1) =~= s.skip(i));
    }
}

proof fn lemma_trim_end_take(s: Seq<char>, i: int)
    requires
        0 <= i <= s.len(),
        forall|j: int| i <= j < s.len() ==> is_space(s[j]),
        i > 0 ==> !is_space(s[i - 1]),
    ensures
        trim_end(s) == s.take(i),
    decreases s.len() - i,
{
    if i == s.len() {
        assert(s.take(i) =~= s);
    } else {
        assert(is_space(s.last()));
        lemma_trim_end_take(s.drop_last(), i);
        assert(s.drop_last().take(i) =~= s.take(i));
    }
}

/// Copy of `v` with leading and trailing white space removed.
pub fn trim_chars(v: &Vec<char>) -> (r: Vec<char>)
    ensures
        r@ == trim(v@),
{
    let mut start: usize = 0;
    while start < v.len() && is_space_char(v[start])
        invariant
            start <= v.len(),
            forall|j: int| 0 <= j < start ==> is_space(v@[j]),
        decreases v.len() - start,
    {
        start = start + 1;
    }
    proof {
        lemma_trim_start_skip(v@, start as int);
    }
    let ghost t = v@.skip(start as int);
    let mut end: usize = v.len();
    while end > start && is_space_char(v[end - 1])
        invariant
            start <= end <= v.len(),
            forall|j: int| end <= j < v.len() ==> is_space(v@[j]),
        decreases end,
    {
        end = end - 1;
    }
    proof {
        assert(forall|j: int| end - start <= j < t.len() ==> is_space(#[trigger] t[j]));
        lemma_trim_end_take(t, end - start);
    }
    let mut out: Vec<char> = Vec::new();
    let mut i: usize = start;
    while i < end
        invariant
            start <= i <= end <= v.len(),
            out@ == v@.subrange(start as int, i as int),
        decreases end - i,
    {
        out.push(v[i]);
        proof {
            assert(v@.subrange(start as int, i + 1 as int) =~= v@.subrange(
                start as int,
                i as int,
            ).push(v@[i as int]));
        }
        i = i + 1;
    }
    proof {
        assert(t.take(end - start as int) =~= v@.subrange(start as int, end as int));
    }
    out
}

/// One line with a trailing carriage return removed, as `str::lines` does.
pub open spec fn strip_cr(l: Seq<char>) -> Seq<char> {
    if l.len() > 0 && l.last() == '\r' {
        l.drop_last()
    } else {
        l
    }
}

/// Helper for [`split_lines`]: splits the remaining input `s`, with `cur`
/// holding the characters of the current, still unterminated line.
pub open spec fn split_lines_rec(s: Seq<char>, cur: Seq<char>) -> Seq<Seq<char>>
    decreases s.len(),
{
    if s.len() == 0 {
        if cur.len() == 0 {
            Seq::empty()
        } else {
            seq![strip_cr(cur)]
        }
    } else if s[0] == '\n' {
        seq![strip_cr(cur)] + split_lines_rec(s.drop_first(), Seq::empty())
    } else {
        split_lines_rec(s.drop_first(), cur.push(s[0]))
    }
}

/// The lines of `s`, split at `'\n'` with a trailing `'\r'` stripped from
/// each line, exactly as `str::lines` splits: a final unterminated line is
/// kept, and a trailing newline does not add an empty final line.
pub open spec fn split_lines(s: Seq<char>) -> Seq<Seq<char>> {
    split_lines_rec(s, Seq::empty())
}

/// Compare the characters in `v` with the characters of `s`.
pub fn eq_str(v: &Vec<char>, s: &str) -> (r: bool)
    ensures
        r == (v@ == s@),
{
    let n = s.unicode_len();
    if v.len() != n {
        return false;
    }
    let mut i: usize = 0;
    while i < n
        invariant
            i <= n,
            n == s@.len(),
            v@.len() == n,
            forall|j: int| 0 <= j < i ==> v@[j] == s@[j],
        decreases n - i,
    {
        if v[i] != s.get_char(i) {
            return false;
        }
        i = i + 1;
    }
    proof {
        assert(v@ =~= s@);
    }
    true
}

/// Compare two string slices character by character.
pub fn str_eq(a: &str, b: &str) -> (r: bool)
    ensures
        r == (a@ == b@),
{
    let va = chars_vec(a);
    eq_str(&va, b)
}

/// The first `n` characters of `v`.
pub fn take_chars(v: &Vec<char>, n: usize) -> (r: Vec<char>)
    requires
        n <= v@.len(),
    ensures
        r@ == v@.take(n as int),
{
    let mut out: Vec<char> = Vec::new();
    let mut i: usize = 0;
    while i < n
        invariant
            i <= n <= v@.len(),
            out@ == v@.take(i as int),
        decreases n - i,
    {
        out.push(v[i]);
        proof {
            assert(v@.take(i + 1 as int) =~= v@.take(i as int).push(v@[i as int]));
        }
        i = i + 1;
    }
    out
}

/// The characters of `v` from `start` (inclusive) to `end` (exclusive).
pub fn sub_chars(v: &Vec<char>, start: usize, end: usize) -> (r: Vec<char>)
    requires
        start <= end <= v@.len(),
    ensures
        r@ == v@.subrange(start as int, end as int),
{
    let mut out: Vec<char> = Vec::new();
    let mut i: usize = start;
    while i < end
        invariant
            start <= i <= end <= v@.len(),
            out@ == v@.subrange(start as int, i as int),
        decreases end - i,
    {
        out.push(v[i]);
        proof {
            assert(v@.subrange(start as int, i + 1 as int) =~= v@.subrange(
                start as int,
                i as int,
            ).push(v@[i as int]));
        }
        i = i + 1;
    }
    out
}

/// Remove one trailing carriage return from a finished line.
fn strip_cr_vec(cur: Vec<char>) -> (r: Vec<char>)
    ensures
        r@ == strip_cr(cur@),
{
    let mut cc = cur;
    if cc.len() > 0 && cc[cc.len() - 1] == '\r' {
        cc.pop();
    }
    cc
}

/// Split `text` into lines.
pub fn split_lines_vec(text: &Vec<char>) -> (r: Vec<Vec<char>>)
    ensures
        r.deep_view() == split_lines(text@),
{
    let mut out: Vec<Vec<char>> = Vec::new();
    let mut cur: Vec<char> = Vec::new();
    let mut i: usize = 0;
    proof {
        assert(text@.skip(0) =~= text@);
        assert(out.deep_view() + split_lines_rec(text@, Seq::empty()) =~= split_lines_rec(
            text@,
            Seq::empty(),
        ));
    }
    while i < text.len()
        invariant
            i <= text.len(),
            split_lines(text@) == out.deep_view() + split_lines_rec(text@.skip(i as int), cur@),
        decreases text.len() - i,
    {
        let c = text[i];
        proof {
            assert(text@.skip(i as int).drop_first() =~= text@.skip(i + 1));
            assert(text@.skip(i as int)[0] == text@[i as int]);
        }
        if c == '\n' {
            let ghost cur_snap = cur@;
            let ghost old_out = out.deep_view();
            let stripped = strip_cr_vec(cur);
            out.push(stripped);
            cur = Vec::new();
            proof {
                assert(out.deep_view() =~~= old_out.push(strip_cr(cur_snap)));
                assert(out.deep_view() + split_lines_rec(text@.skip(i + 1), cur@) =~= old_out + (
                seq![strip_cr(cur_snap)] + split_lines_rec(text@.skip(i + 1), Seq::empty())));
            }
        } else {
            cur.push(c);
        }
        i = i + 1;
    }
    proof {
        assert(text@.skip(text@.len() as int) =~= Seq::<char>::empty());
    }
    if cur.len() > 0 {
        let ghost cur_snap = cur@;
        let ghost old_out = out.deep_view();
        let stripped = strip_cr_vec(cur);
        out.push(stripped);
        proof {
            assert(out.deep_view() =~~= old_out.push(strip_cr(cur_snap)));
        }
    }
    out
}

/// Append all characters of `src` to `out`.
pub fn append_chars(out: &mut Vec<char>, src: &Vec<char>)
    ensures
        final(out)@ == old(out)@ + src@,
{
    let mut i: usize = 0;
    proof {
        assert(out@ + src@.take(0) =~= out@);
    }
    while i < src.len()
        invariant
            i <= src@.len(),
            out@ == old(out)@ + src@.take(i as int),
        decreases src@.len() - i,
    {
        out.push(src[i]);
        proof {
            assert(old(out)@ + src@.take(i + 1) =~= (old(out)@ + src@.take(i as int)).push(
                src@[i as int],
            ));
        }
        i = i + 1;
    }
    proof {
        assert(src@.take(src@.len() as int) =~= src@);
    }
}

/// Whether `v` starts with the characters of `s`.
pub fn starts_with_lit(v: &Vec<char>, s: &str) -> (r: bool)
    ensures
        r == s@.is_prefix_of(v@),
{
    let n = s.unicode_len();
    if v.len() < n {
        proof {
            assert(!s@.is_prefix_of(v@));
        }
        return false;
    }
    let head = sub_chars(v, 0, n);
    let r = eq_str(&head, s);
    proof {
        assert(v@.subrange(0, n as int) == v@.take(n as int));
    }
    r
}

/// The lines, each trimmed, with blank lines dropped.
pub open spec fn cleaned_lines(lines: Seq<Seq<char>>) -> Seq<Seq<char>>
    decreases lines.len(),
{
    if lines.len() == 0 {
        Seq::empty()
    } else {
        let t = trim(lines.first());
        if t.len() == 0 {
            cleaned_lines(lines.drop_first())
        } else {
            seq![t] + cleaned_lines(lines.drop_first())
        }
    }
}

/// The tail of a joined sequence: each further piece preceded by the
/// separator.
pub open spec fn join_with_rest(pieces: Seq<Seq<char>>, sep: Seq<char>) -> Seq<char>
    decreases pieces.len(),
{
    if pieces.len() == 0 {
        Seq::empty()
    } else {
        sep + pieces.first() + join_with_rest(pieces.drop_first(), sep)
    }
}

/// The pieces joined with the separator between them.
pub open spec fn join_with(pieces: Seq<Seq<char>>, sep: Seq<char>) -> Seq<char> {
    if pieces.len() == 0 {
        Seq::empty()
    } else {
        pieces.first() + join_with_rest(pieces.drop_first(), sep)
    }
}

/// Joining one more piece appends the separator and the piece.
pub proof fn lemma_join_with_push(pieces: Seq<Seq<char>>, sep: Seq<char>, piece: Seq<char>)
    ensures
        pieces.len() == 0 ==> join_with(pieces.push(piece), sep) == piece,
        pieces.len() > 0 ==> join_with(pieces.push(piece), sep) == join_with(pieces, sep) + sep
            + piece,
{
    if pieces.len() == 0 {
        assert(pieces.push(piece).first() == piece);
        assert(pieces.push(piece).drop_first() =~= Seq::<Seq<char>>::empty());
        assert(piece + Seq::<char>::empty() =~= piece);
    } else {
        assert(pieces.push(piece).first() == pieces.first());
        assert(pieces.push(piece).drop_first() =~= pieces.drop_first().push(piece));
        lemma_join_with_rest_push(pieces.drop_first(), sep, piece);
        assert(pieces.first() + (join_with_rest(pieces.drop_first(), sep) + sep + piece) =~= (
        pieces.first() + join_with_rest(pieces.drop_first(), sep)) + sep + piece);
    }
}

proof fn lemma_join_with_rest_push(pieces: Seq<Seq<char>>, sep: Seq<char>, piece: Seq<char>)
    ensures
        join_with_rest(pieces.push(piece), sep) == join_with_rest(pieces, sep) + sep + piece,
    decreases pieces.len(),
{
    if pieces.len() == 0 {
        reveal_with_fuel(join_with_rest, 3);
        assert(pieces.push(piece).first() == piece);
        assert(pieces.push(piece).drop_first() =~= Seq::<Seq<char>>::empty());
        assert(join_with_rest(pieces.push(piece), sep) =~= Seq::<char>::empty() + sep + piece);
    } else {
        assert(pieces.push(piece).first() == pieces.first());
        assert(pieces.push(piece).drop_first() =~= pieces.drop_first().push(piece));
        lemma_join_with_rest_push(pieces.drop_first(), sep, piece);
        assert(sep + pieces.first() + (join_with_rest(pieces.drop_first(), sep) + sep + piece) =~= (
        sep + pieces.first() + join_with_rest(pieces.drop_first(), sep)) + sep + piece);
    }
}

/// Join pieces with a separator between them.
pub fn join_chars(pieces: &Vec<Vec<char>>, sep: &Vec<char>) -> (r: Vec<char>)
    ensures
        r@ == join_with(pieces.deep_view(), sep@),
{
    let mut out: Vec<char> = Vec::new();
    let mut i: usize = 0;
    while i < pieces.len()
        invariant
            i <= pieces@.len(),
            out@ == join_with(pieces.deep_view().take(i as int), sep@),
        decreases pieces@.len() - i,
    {
        proof {
            assert(pieces.deep_view()[i as int] == pieces@[i as int].deep_view());
            assert(pieces@[i as int].deep_view() =~= pieces@[i as int]@);
            assert(pieces.deep_view().take(i + 1) =~= pieces.deep_view().take(i as int).push(
                pieces.deep_view()[i as int],
            ));
            lemma_join_with_push(
                pieces.deep_view().take(i as int),
                sep@,
                pieces.deep_view()[i as int],
            );
        }
        if i > 0 {
            append_chars(&mut out, sep);
        }
        append_chars(&mut out, &pieces[i]);
        i = i + 1;
    }
    proof {
        assert(pieces.deep_view().take(pieces@.len() as int) =~= pieces.deep_view());
    }
    out
}

/// The text reduced to its trimmed, non-blank lines, joined with single
/// newlines.
pub open spec fn cleaned_text(t: Seq<char>) -> Seq<char> {
    join_with(cleaned_lines(split_lines(t)), seq!['\n'])
}

/// Reduce a text to its trimmed, non-blank lines, joined with single
/// newlines.
pub fn clean_chars(v: &Vec<char>) -> (r: Vec<char>)
    ensures
        r@ == cleaned_text(v@),
{
    let lines = split_lines_vec(v);
    let mut kept: Vec<Vec<char>> = Vec::new();
    let mut i: usize = 0;
    let ghost lines_spec = split_lines(v@);
    proof {
        assert(lines_spec.skip(0) =~= lines_spec);
        assert(kept.deep_view() + cleaned_lines(lines_spec) =~= cleaned_lines(lines_spec));
    }
    while i < lines.len()
        invariant
            i <= lines@.len(),
            lines.deep_view() == lines_spec,
            cleaned_lines(lines_spec) == kept.deep_view() + cleaned_lines(
                lines_spec.skip(i as int),
            ),
        decreases lines@.len() - i,
    {
        proof {
            assert(lines_spec.skip(i as int).first() == lines.deep_view()[i as int]);
            assert(lines_spec.skip(i as int).drop_first() =~= lines_spec.skip(i + 1));
            assert(lines.deep_view()[i as int] == lines@[i as int].deep_view());
            assert(lines@[i as int].deep_view() =~= lines@[i as int]@);
        }
        let t = trim_chars(&lines[i]);
        if t.len() > 0 {
            let ghost old_kept = kept.deep_view();
            let ghost t_spec = t@;
            kept.push(t);
            proof {
                assert(kept.deep_view() =~~= old_kept + seq![t_spec]);
                assert((old_kept + seq![t_spec]) + cleaned_lines(lines_spec.skip(i + 1)) =~= old_kept
                    + (seq![t_spec] + cleaned_lines(lines_spec.skip(i + 1))));
            }
        }
        i = i + 1;
    }
    proof {
        assert(lines_spec.skip(lines@.len() as int) =~= Seq::<Seq<char>>::empty());
        assert(cleaned_lines(lines_spec) =~= kept.deep_view());
    }
    let sep: Vec<char> = vec!['\n'];
    proof {
        assert(sep@ =~= seq!['\n']);
    }
    join_chars(&kept, &sep)
}

/// Each line followed by one newline, in order.
pub open spec fn terminated_lines(lines: Seq<Seq<char>>) -> Seq<char>
    decreases lines.len(),
{
    if lines.len() == 0 {
        Seq::empty()
    } else {
        lines.first() + seq!['\n'] + terminated_lines(lines.drop_first())
    }
}

/// Concatenated lines distribute over appending.
pub proof fn lemma_terminated_lines_push(lines: Seq<Seq<char>>, line: Seq<char>)
    ensures
        terminated_lines(lines.push(line)) == terminated_lines(lines) + line + seq!['\n'],
    decreases lines.len(),
{
    if lines.len() == 0 {
        reveal_with_fuel(terminated_lines, 3);
        assert(lines.push(line).first() == line);
        assert(lines.push(line).drop_first() =~= Seq::<Seq<char>>::empty());
        assert(terminated_lines(lines.push(line)) =~= Seq::<char>::empty() + line + seq!['\n']);
    } else {
        assert(lines.push(line).first() == lines.first());
        assert(lines.push(line).drop_first() =~= lines.drop_first().push(line));
        lemma_terminated_lines_push(lines.drop_first(), line);
        assert(lines.first() + seq!['\n'] + (terminated_lines(lines.drop_first()) + line + seq![
            '\n',
        ]) =~= (lines.first() + seq!['\n'] + terminated_lines(lines.drop_first())) + line + seq![
            '\n',
        ]);
    }
}

} // verus!
