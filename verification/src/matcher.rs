//! The match engine: literal patterns matched strictly line by line.
//!
//! Literal matching is implemented and verified here, down to each reported
//! occurrence; it reports overlapping occurrences by checking every starting
//! position of every line. Case-insensitive matching folds ASCII letters
//! only (see [`crate::text::lower_char`]); non-ASCII characters must match
//! exactly.

use vstd::prelude::*;

use crate::text;
use crate::text::{fold_case, lower_chars};
use crate::types::{Match, MatchModel};

verus! {

/// The pattern occurs in `line` at character position `i`.
pub open spec fn occurs_at(line: Seq<char>, pat: Seq<char>, i: int) -> bool {
    0 <= i && i + pat.len() <= line.len() && line.subrange(i, i + pat.len()) == pat
}

/// Every position `>= from` at which `pat` occurs in `line`, in increasing
/// order.
pub open spec fn match_positions_from(line: Seq<char>, pat: Seq<char>, from: nat) -> Seq<int>
    decreases line.len() + 1 - from,
{
    if from + pat.len() > line.len() {
        Seq::empty()
    } else if occurs_at(line, pat, from as int) {
        seq![from as int] + match_positions_from(line, pat, from + 1)
    } else {
        match_positions_from(line, pat, from + 1)
    }
}

/// Every position at which `pat` occurs in `line`, in increasing order.
pub open spec fn match_positions(line: Seq<char>, pat: Seq<char>) -> Seq<int> {
    match_positions_from(line, pat, 0)
}

/// The match record for an occurrence of a pattern of length `plen` at
/// column `p` of line `ln` (1-indexed), whose text is `line`.
pub open spec fn match_record(line: Seq<char>, plen: int, ln: int, p: int) -> MatchModel {
    MatchModel {
        matched: line.subrange(p, p + plen),
        context: line,
        line_number: Some(ln),
        column: Some(p),
    }
}

/// The records for all occurrences at positions `>= from` of the folded
/// pattern `fp` in the folded line `fl`; the record texts come from the
/// original `line`.
pub open spec fn records_from(
    line: Seq<char>,
    fl: Seq<char>,
    fp: Seq<char>,
    plen: int,
    ln: int,
    from: nat,
) -> Seq<MatchModel> {
    match_positions_from(fl, fp, from).map_values(|p: int| match_record(line, plen, ln, p))
}

/// All match records of a literal pattern on one line: one per occurrence of
/// the case-folded pattern in the case-folded line, each carrying the
/// matched characters of the original line.
pub open spec fn line_match_records(
    line: Seq<char>,
    pat: Seq<char>,
    case_sensitive: bool,
    ln: int,
) -> Seq<MatchModel> {
    records_from(
        line,
        fold_case(line, case_sensitive),
        fold_case(pat, case_sensitive),
        pat.len() as int,
        ln,
        0,
    )
}

/// All match records of a literal pattern on a sequence of lines, the first
/// line numbered `ln`.
pub open spec fn matches_for_lines(
    lines: Seq<Seq<char>>,
    pat: Seq<char>,
    case_sensitive: bool,
    ln: int,
) -> Seq<MatchModel>
    decreases lines.len(),
{
    if lines.len() == 0 {
        Seq::empty()
    } else {
        line_match_records(lines.first(), pat, case_sensitive, ln) + matches_for_lines(
            lines.drop_first(),
            pat,
            case_sensitive,
            ln + 1,
        )
    }
}

/// All match records of a literal pattern on a text, matched line by line.
pub open spec fn literal_matches(text: Seq<char>, pat: Seq<char>, case_sensitive: bool) -> Seq<
    MatchModel,
> {
    matches_for_lines(text::split_lines(text), pat, case_sensitive, 1)
}

/// One scanning step: the records from `from` are the records from
/// `from + 1`, with the record at `from` in front when the pattern occurs
/// there.
proof fn lemma_records_from_step(
    line: Seq<char>,
    fl: Seq<char>,
    fp: Seq<char>,
    plen: int,
    ln: int,
    from: nat,
)
    requires
        from + fp.len() <= fl.len(),
    ensures
        occurs_at(fl, fp, from as int) ==> records_from(line, fl, fp, plen, ln, from) == seq![
            match_record(line, plen, ln, from as int),
        ] + records_from(line, fl, fp, plen, ln, from + 1),
        !occurs_at(fl, fp, from as int) ==> records_from(line, fl, fp, plen, ln, from)
            == records_from(line, fl, fp, plen, ln, from + 1),
{
    if occurs_at(fl, fp, from as int) {
        assert(match_positions_from(fl, fp, from) == seq![from as int] + match_positions_from(
            fl,
            fp,
            from + 1,
        ));
        assert(records_from(line, fl, fp, plen, ln, from) =~= seq![
            match_record(line, plen, ln, from as int),
        ] + records_from(line, fl, fp, plen, ln, from + 1));
    }
}

/// Whether the pattern occurs at position `from` of the folded line.
fn is_match_at(fl: &Vec<char>, fp: &Vec<char>, from: usize) -> (r: bool)
    requires
        from + fp@.len() <= fl@.len(),
    ensures
        r == occurs_at(fl@, fp@, from as int),
{
    let fl_len = fl.len();
    let mut k: usize = 0;
    while k < fp.len()
        invariant
            k <= fp@.len(),
            fl_len == fl@.len(),
            from + fp@.len() <= fl@.len(),
            forall|j: int| 0 <= j < k ==> fl@[from + j] == fp@[j],
        decreases fp@.len() - k,
    {
        if fl[from + k] != fp[k] {
            proof {
                if occurs_at(fl@, fp@, from as int) {
                    assert(fl@.subrange(from as int, from + fp@.len())[k as int] == fl@[from + k]);
                }
            }
            return false;
        }
        k = k + 1;
    }
    proof {
        assert(fl@.subrange(from as int, from + fp@.len()) =~= fp@);
    }
    true
}

/// The match records of one line, as a vector of [`Match`] values.
fn line_matches(
    line: &Vec<char>,
    pat: &Vec<char>,
    folded_pat: &Vec<char>,
    case_sensitive: bool,
    ln: usize,
) -> (r: Vec<Match>)
    requires
        folded_pat@ == fold_case(pat@, case_sensitive),
    ensures
        r.deep_view() == line_match_records(line@, pat@, case_sensitive, ln as int),
{
    let fl: Vec<char> = if case_sensitive {
        text::sub_chars(line, 0, line.len())
    } else {
        lower_chars(line)
    };
    proof {
        assert(line@.subrange(0, line@.len() as int) =~= line@);
        assert(fl@ == fold_case(line@, case_sensitive));
    }
    let ghost plen_spec = pat@.len() as int;
    let ghost full = line_match_records(line@, pat@, case_sensitive, ln as int);
    let mut out: Vec<Match> = Vec::new();
    let plen = folded_pat.len();
    let llen = fl.len();
    if plen > llen {
        proof {
            assert(full =~~= out.deep_view());
        }
        return out;
    }
    let bound = llen - plen;
    let ctx = text::string_from_chars(line);
    let mut from: usize = 0;
    loop
        invariant_except_break
            from <= bound,
            bound + plen == llen,
            llen == fl@.len(),
            line@.len() == fl@.len(),
            plen == folded_pat@.len(),
            plen == pat@.len(),
            fl@ == fold_case(line@, case_sensitive),
            folded_pat@ == fold_case(pat@, case_sensitive),
            ctx@ == line@,
            full == line_match_records(line@, pat@, case_sensitive, ln as int),
            full == out.deep_view() + records_from(
                line@,
                fl@,
                folded_pat@,
                pat@.len() as int,
                ln as int,
                from as nat,
            ),
        ensures
            out.deep_view() == full,
        decreases bound - from,
    {
        let ghost old_out = out.deep_view();
        proof {
            lemma_records_from_step(
                line@,
                fl@,
                folded_pat@,
                pat@.len() as int,
                ln as int,
                from as nat,
            );
        }
        if is_match_at(&fl, folded_pat, from) {
            let ghost rec = match_record(line@, pat@.len() as int, ln as int, from as int);
            let matched = text::sub_chars(line, from, from + plen);
            let m = Match::with_position(text::string_from_chars(&matched), ctx.clone(), ln, from);
            proof {
                assert(m.deep_view() == rec);
            }
            out.push(m);
            proof {
                assert(out.deep_view() =~~= old_out + seq![rec]);
                assert((old_out + seq![rec]) + records_from(
                    line@,
                    fl@,
                    folded_pat@,
                    pat@.len() as int,
                    ln as int,
                    (from + 1) as nat,
                ) =~= old_out + (seq![rec] + records_from(
                    line@,
                    fl@,
                    folded_pat@,
                    pat@.len() as int,
                    ln as int,
                    (from + 1) as nat,
                )));
            }
        }
        if from == bound {
            proof {
                assert(match_positions_from(fl@, folded_pat@, (from + 1) as nat) == Seq::<
                    int,
                >::empty());
                assert(records_from(
                    line@,
                    fl@,
                    folded_pat@,
                    pat@.len() as int,
                    ln as int,
                    (from + 1) as nat,
                ) =~= Seq::<MatchModel>::empty());
                assert(out.deep_view() =~~= full);
            }
            break;
        }
        from = from + 1;
    }
    out
}

/// Find all matches of a literal pattern in `text`, line by line, reporting
/// overlapping occurrences, with 1-indexed line numbers and 0-indexed
/// character columns.
pub fn find_literal_matches(
    text: &str,
    pat: &Vec<char>,
    folded_pat: &Vec<char>,
    case_sensitive: bool,
) -> (r: Vec<Match>)
    requires
        folded_pat@ == fold_case(pat@, case_sensitive),
    ensures
        r.deep_view() == literal_matches(text@, pat@, case_sensitive),
{
    let chars = text::chars_vec(text);
    let lines = text::split_lines_vec(&chars);
    let mut out: Vec<Match> = Vec::new();
    let mut j: usize = 0;
    proof {
        assert(text::split_lines(text@).skip(0) =~= text::split_lines(text@));
        assert(out.deep_view() + matches_for_lines(
            text::split_lines(text@),
            pat@,
            case_sensitive,
            1,
        ) =~= matches_for_lines(text::split_lines(text@), pat@, case_sensitive, 1));
    }
    while j < lines.len()
        invariant
            folded_pat@ == fold_case(pat@, case_sensitive),
            lines.deep_view() == text::split_lines(text@),
            j <= lines@.len(),
            literal_matches(text@, pat@, case_sensitive) == out.deep_view() + matches_for_lines(
                text::split_lines(text@).skip(j as int),
                pat@,
                case_sensitive,
                j + 1 as int,
            ),
        decreases lines@.len() - j,
    {
        let ghost lines_spec = text::split_lines(text@);
        let ghost old_out = out.deep_view();
        let mut lm = line_matches(&lines[j], pat, folded_pat, case_sensitive, j + 1);
        let ghost recs = line_match_records(lines_spec[j as int], pat@, case_sensitive, j + 1 as int);
        let ghost lm_deep = lm.deep_view();
        proof {
            assert(lines.deep_view()[j as int] == lines@[j as int].deep_view());
            assert(lines@[j as int].deep_view() =~= lines@[j as int]@);
            assert(lm_deep == recs);
        }
        out.append(&mut lm);
        proof {
            let tail = lines_spec.skip(j as int).drop_first();
            assert(lines.deep_view()[j as int] == lines_spec[j as int]);
            assert(lines_spec.skip(j as int).first() == lines_spec[j as int]);
            assert(matches_for_lines(lines_spec.skip(j as int), pat@, case_sensitive, j + 1 as int)
                == line_match_records(
                lines_spec.skip(j as int).first(),
                pat@,
                case_sensitive,
                j + 1 as int,
            ) + matches_for_lines(tail, pat@, case_sensitive, j + 1 as int + 1));
            assert(tail =~= lines_spec.skip(j + 1));
            assert(matches_for_lines(lines_spec.skip(j as int), pat@, case_sensitive, j + 1 as int)
                == recs + matches_for_lines(lines_spec.skip(j + 1), pat@, case_sensitive, j + 2 as int));
            assert(out.deep_view() =~~= old_out + lm_deep);
            assert((old_out + recs) + matches_for_lines(
                lines_spec.skip(j + 1),
                pat@,
                case_sensitive,
                j + 2 as int,
            ) =~= old_out + (recs + matches_for_lines(
                lines_spec.skip(j + 1),
                pat@,
                case_sensitive,
                j + 2 as int,
            )));
        }
        j = j + 1;
    }
    proof {
        assert(text::split_lines(text@).skip(lines@.len() as int) =~= Seq::<Seq<char>>::empty());
    }
    out
}

#[verifier::external_type_specification]
#[verifier::external_body]
pub struct ExRegex(regex::Regex);

#[verifier::external_type_specification]
#[verifier::external_body]
pub struct ExRegexError(regex::Error);

/// Whether the regex crate compiles this pattern with this
/// case-insensitivity flag: compilation can fail on the compiled size limit,
/// which the flag influences, so success is a function of both.
pub uninterp spec fn regex_compiles(pat: Seq<char>, case_insensitive: bool) -> bool;

/// The successive, non-overlapping matched substrings that the compiled
/// regular expression `pat` (with the given case-insensitivity flag, in
/// multi-line mode) finds in `line`, in order.
pub uninterp spec fn regex_line_found(pat: Seq<char>, case_insensitive: bool, line: Seq<char>) -> Seq<
    Seq<char>,
>;

/// A compiled regular expression, tied to the pattern text and case flag it
/// was built from. Values are only created by [`compile_regex`], which keeps
/// the compiled expression consistent with the recorded pattern and flag.
pub struct RegexHandle {
    re: regex::Regex,
    pattern: String,
    case_insensitive: bool,
}

impl RegexHandle {
    /// The pattern this handle was compiled from.
    pub closed spec fn pattern_view(self) -> Seq<char> {
        self.pattern@
    }

    /// The case-insensitivity flag this handle was compiled with.
    pub closed spec fn is_case_insensitive(self) -> bool {
        self.case_insensitive
    }
}

/// Relies on `regex::RegexBuilder` (`new`, `case_insensitive`, `multi_line`,
/// `build`): compiles `pattern` in multi-line mode with the given case flag;
/// compilation succeeds or fails as a function of the pattern text alone.
#[verifier::external_body]
fn compile_regex(pattern: &str, case_insensitive: bool) -> (r: Result<RegexHandle, regex::Error>)
    ensures
        r is Ok <==> regex_compiles(pattern@, case_insensitive),
        r matches Ok(h) ==> h.pattern_view() == pattern@ && h.is_case_insensitive()
            == case_insensitive,
{
    match regex::RegexBuilder::new(pattern).case_insensitive(case_insensitive).multi_line(
        true,
    ).build() {
        Ok(re) => Ok(RegexHandle { re, pattern: pattern.to_string(), case_insensitive }),
        Err(e) => Err(e),
    }
}

/// Relies on `regex::Regex::find_iter` and `regex::Match::as_str`: the
/// successive, non-overlapping matched substrings of `line`, in order; a
/// function of the pattern, its flags and the line alone.
#[verifier::external_body]
fn regex_find_all(h: &RegexHandle, line: &str) -> (r: Vec<String>)
    ensures
        r.deep_view() == regex_line_found(h.pattern_view(), h.is_case_insensitive(), line@),
{
    h.re.find_iter(line).map(|m| m.as_str().to_string()).collect()
}

/// The match records the regular expression produces on one line: one per
/// found substring, without column information.
pub open spec fn regex_line_records(
    pat: Seq<char>,
    case_insensitive: bool,
    line: Seq<char>,
    ln: int,
) -> Seq<MatchModel> {
    regex_line_found(pat, case_insensitive, line).map_values(
        |m: Seq<char>| MatchModel { matched: m, context: line, line_number: Some(ln), column: None },
    )
}

/// The regular expression's match records on a sequence of lines, the first
/// line numbered `ln`.
pub open spec fn regex_matches_for_lines(
    pat: Seq<char>,
    case_insensitive: bool,
    lines: Seq<Seq<char>>,
    ln: int,
) -> Seq<MatchModel>
    decreases lines.len(),
{
    if lines.len() == 0 {
        Seq::empty()
    } else {
        regex_line_records(pat, case_insensitive, lines.first(), ln) + regex_matches_for_lines(
            pat,
            case_insensitive,
            lines.drop_first(),
            ln + 1,
        )
    }
}

/// The regular expression's match records on a text, matched line by line.
pub open spec fn regex_matches(pat: Seq<char>, case_insensitive: bool, text: Seq<char>) -> Seq<
    MatchModel,
> {
    regex_matches_for_lines(pat, case_insensitive, text::split_lines(text), 1)
}

/// The regex match records of one line, as a vector of [`Match`] values.
fn regex_line_matches(h: &RegexHandle, line: &Vec<char>, ln: usize) -> (r: Vec<Match>)
    ensures
        r.deep_view() == regex_line_records(
            h.pattern_view(),
            h.is_case_insensitive(),
            line@,
            ln as int,
        ),
{
    let line_str = text::string_from_chars(line);
    let found = regex_find_all(h, line_str.as_str());
    let ghost records = regex_line_records(
        h.pattern_view(),
        h.is_case_insensitive(),
        line@,
        ln as int,
    );
    let mut out: Vec<Match> = Vec::new();
    let mut k: usize = 0;
    proof {
        assert(records.len() == found.deep_view().len());
    }
    while k < found.len()
        invariant
            k <= found@.len(),
            found.deep_view() == regex_line_found(
                h.pattern_view(),
                h.is_case_insensitive(),
                line@,
            ),
            records == regex_line_records(
                h.pattern_view(),
                h.is_case_insensitive(),
                line@,
                ln as int,
            ),
            records.len() == found@.len(),
            line_str@ == line@,
            out.deep_view() =~= records.take(k as int),
        decreases found@.len() - k,
    {
        let m = Match::with_line(found[k].clone(), line_str.clone(), ln);
        proof {
            assert(found.deep_view()[k as int] == found@[k as int].deep_view());
            assert(m.deep_view() == records[k as int]);
        }
        out.push(m);
        proof {
            assert(records.take(k + 1 as int) =~= records.take(k as int).push(records[k as int]));
            assert(out.deep_view() =~~= records.take(k + 1 as int));
        }
        k = k + 1;
    }
    proof {
        assert(records.take(found@.len() as int) =~= records);
    }
    out
}

/// Find all matches of the compiled regular expression in `text`, line by
/// line, with 1-indexed line numbers.
pub fn find_regex_matches(h: &RegexHandle, text: &str) -> (r: Vec<Match>)
    ensures
        r.deep_view() == regex_matches(h.pattern_view(), h.is_case_insensitive(), text@),
{
    let chars = text::chars_vec(text);
    let lines = text::split_lines_vec(&chars);
    let mut out: Vec<Match> = Vec::new();
    let mut j: usize = 0;
    proof {
        assert(text::split_lines(text@).skip(0) =~= text::split_lines(text@));
        assert(out.deep_view() + regex_matches_for_lines(
            h.pattern_view(),
            h.is_case_insensitive(),
            text::split_lines(text@),
            1,
        ) =~= regex_matches_for_lines(
            h.pattern_view(),
            h.is_case_insensitive(),
            text::split_lines(text@),
            1,
        ));
    }
    while j < lines.len()
        invariant
            lines.deep_view() == text::split_lines(text@),
            j <= lines@.len(),
            regex_matches(h.pattern_view(), h.is_case_insensitive(), text@) == out.deep_view()
                + regex_matches_for_lines(
                h.pattern_view(),
                h.is_case_insensitive(),
                text::split_lines(text@).skip(j as int),
                j + 1 as int,
            ),
        decreases lines@.len() - j,
    {
        let ghost lines_spec = text::split_lines(text@);
        let ghost old_out = out.deep_view();
        let mut lm = regex_line_matches(h, &lines[j], j + 1);
        let ghost recs = regex_line_records(
            h.pattern_view(),
            h.is_case_insensitive(),
            lines_spec[j as int],
            j + 1 as int,
        );
        let ghost lm_deep = lm.deep_view();
        proof {
            assert(lines.deep_view()[j as int] == lines@[j as int].deep_view());
            assert(lines@[j as int].deep_view() =~= lines@[j as int]@);
            assert(lm_deep == recs);
        }
        out.append(&mut lm);
        proof {
            let tail = lines_spec.skip(j as int).drop_first();
            assert(lines_spec.skip(j as int).first() == lines_spec[j as int]);
            assert(regex_matches_for_lines(
                h.pattern_view(),
                h.is_case_insensitive(),
                lines_spec.skip(j as int),
                j + 1 as int,
            ) == regex_line_records(
                h.pattern_view(),
                h.is_case_insensitive(),
                lines_spec.skip(j as int).first(),
                j + 1 as int,
            ) + regex_matches_for_lines(
                h.pattern_view(),
                h.is_case_insensitive(),
                tail,
                j + 1 as int + 1,
            ));
            assert(tail =~= lines_spec.skip(j + 1));
            assert(out.deep_view() =~~= old_out + lm_deep);
            assert((old_out + recs) + regex_matches_for_lines(
                h.pattern_view(),
                h.is_case_insensitive(),
                lines_spec.skip(j + 1),
                j + 2 as int,
            ) =~= old_out + (recs + regex_matches_for_lines(
                h.pattern_view(),
                h.is_case_insensitive(),
                lines_spec.skip(j + 1),
                j + 2 as int,
            )));
        }
        j = j + 1;
    }
    proof {
        assert(text::split_lines(text@).skip(lines@.len() as int) =~= Seq::<Seq<char>>::empty());
    }
    out
}

/// A compiled search pattern: either a literal with its case-folded form, or
/// a compiled regular expression.
pub enum CompiledPattern {
    /// A literal pattern and its case-folded form.
    Literal {
        /// The pattern as given.
        pattern: Vec<char>,
        /// The pattern folded per the case rule.
        folded: Vec<char>,
        /// Whether matching is case-sensitive.
        case_sensitive: bool,
    },
    /// A compiled regular expression.
    Re {
        /// The compiled handle.
        handle: RegexHandle,
    },
}

/// `p` is the literal pattern `pat` under case rule `cs`.
pub open spec fn is_literal_of(p: CompiledPattern, pat: Seq<char>, cs: bool) -> bool {
    &&& p matches CompiledPattern::Literal { pattern, folded, case_sensitive }
    &&& pattern@ == pat
    &&& case_sensitive == cs
}

/// `p` is a regular expression compiled from `pat` with flag `ci`.
pub open spec fn is_regex_of(p: CompiledPattern, pat: Seq<char>, ci: bool) -> bool {
    &&& p matches CompiledPattern::Re { handle }
    &&& handle.pattern_view() == pat
    &&& handle.is_case_insensitive() == ci
}

impl CompiledPattern {
    /// The stored folded form agrees with the pattern and case rule.
    pub open spec fn wf(self) -> bool {
        match self {
            CompiledPattern::Literal { pattern, folded, case_sensitive } => folded@ == fold_case(
                pattern@,
                case_sensitive,
            ),
            CompiledPattern::Re { .. } => true,
        }
    }

    /// All match records this pattern produces on `text`.
    pub open spec fn matches_of(self, text: Seq<char>) -> Seq<MatchModel> {
        match self {
            CompiledPattern::Literal { pattern, folded, case_sensitive } => literal_matches(
                text,
                pattern@,
                case_sensitive,
            ),
            CompiledPattern::Re { handle } => regex_matches(
                handle.pattern_view(),
                handle.is_case_insensitive(),
                text,
            ),
        }
    }

    /// Compile a search pattern: a regular expression when `use_regex` is
    /// set (case-insensitive unless `case_sensitive`, multi-line), else a
    /// literal with its case-folded form. Fails exactly when a regular
    /// expression is requested and the pattern does not compile.
    pub fn new(pattern: &str, case_sensitive: bool, use_regex: bool) -> (r: Result<
        Self,
        regex::Error,
    >)
        ensures
            r is Ok <==> (!use_regex || regex_compiles(pattern@, !case_sensitive)),
            r matches Ok(p) ==> p.wf(),
            use_regex ==> (r matches Ok(p) ==> is_regex_of(p, pattern@, !case_sensitive)),
            !use_regex ==> (r matches Ok(p) ==> is_literal_of(p, pattern@, case_sensitive)),
    {
        if use_regex {
            match compile_regex(pattern, !case_sensitive) {
                Ok(handle) => Ok(CompiledPattern::Re { handle }),
                Err(e) => Err(e),
            }
        } else {
            let pv = text::chars_vec(pattern);
            let folded = if case_sensitive {
                text::sub_chars(&pv, 0, pv.len())
            } else {
                lower_chars(&pv)
            };
            proof {
                assert(pv@.subrange(0, pv@.len() as int) =~= pv@);
            }
            Ok(CompiledPattern::Literal { pattern: pv, folded, case_sensitive })
        }
    }

    /// Find all matches of this pattern in `text`, line by line.
    pub fn find_matches(&self, text: &str) -> (r: Vec<Match>)
        requires
            self.wf(),
        ensures
            r.deep_view() == self.matches_of(text@),
    {
        match self {
            CompiledPattern::Literal { pattern, folded, case_sensitive } => find_literal_matches(
                text,
                pattern,
                folded,
                *case_sensitive,
            ),
            CompiledPattern::Re { handle } => find_regex_matches(handle, text),
        }
    }
}

/// If the folded pattern occurs anywhere in a folded line of the text, the
/// literal matcher reports at least one match.
pub proof fn lemma_present_pattern_is_found(
    text: Seq<char>,
    pat: Seq<char>,
    case_sensitive: bool,
    j: int,
    i: int,
)
    requires
        0 <= j < text::split_lines(text).len(),
        occurs_at(
            fold_case(text::split_lines(text)[j], case_sensitive),
            fold_case(pat, case_sensitive),
            i,
        ),
    ensures
        literal_matches(text, pat, case_sensitive).len() > 0,
{
    let lines = text::split_lines(text);
    lemma_positions_nonempty(
        fold_case(lines[j], case_sensitive),
        fold_case(pat, case_sensitive),
        0,
        i,
    );
    lemma_lines_matches_nonempty(lines, pat, case_sensitive, 1, j);
}

/// If the folded pattern of a literal search occurs anywhere in a folded
/// line of a file's text, the compiled pattern reports at least one match on
/// that text.
pub proof fn lemma_literal_pattern_reported(p: CompiledPattern, t: Seq<char>, j: int, i: int)
    requires
        p matches CompiledPattern::Literal { pattern, folded, case_sensitive },
        0 <= j < text::split_lines(t).len(),
        (p matches CompiledPattern::Literal { pattern, folded, case_sensitive } ==> occurs_at(
            fold_case(text::split_lines(t)[j], case_sensitive),
            fold_case(pattern@, case_sensitive),
            i,
        )),
    ensures
        p.matches_of(t).len() > 0,
{
    if let CompiledPattern::Literal { pattern, folded, case_sensitive } = p {
        lemma_present_pattern_is_found(t, pattern@, case_sensitive, j, i);
    }
}

/// If `pat` occurs at position `i >= from`, the position list from `from` is
/// non-empty.
proof fn lemma_positions_nonempty(line: Seq<char>, pat: Seq<char>, from: nat, i: int)
    requires
        from <= i,
        occurs_at(line, pat, i),
    ensures
        match_positions_from(line, pat, from).len() > 0,
    decreases i - from,
{
    if from < i {
        lemma_positions_nonempty(line, pat, from + 1, i);
    }
}

/// If some line's records are non-empty, the whole text's records are.
proof fn lemma_lines_matches_nonempty(
    lines: Seq<Seq<char>>,
    pat: Seq<char>,
    case_sensitive: bool,
    ln: int,
    j: int,
)
    requires
        0 <= j < lines.len(),
        line_match_records(lines[j], pat, case_sensitive, ln + j).len() > 0,
    ensures
        matches_for_lines(lines, pat, case_sensitive, ln).len() > 0,
    decreases j,
{
    if j > 0 {
        lemma_lines_matches_nonempty(lines.drop_first(), pat, case_sensitive, ln + 1, j - 1);
    }
}

} // verus!
