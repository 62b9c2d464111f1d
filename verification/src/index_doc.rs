//! The persisted cache document format.
//!
//! A cache is persisted as one text document of length-prefixed fields:
//! numbers are decimal digits terminated by a newline, strings carry their
//! character count, a colon, the characters and a newline, and the file
//! category is a single tag character. Encoding and parsing are verified to
//! be mutual inverses: parsing an encoded document yields the encoded cache
//! back.

use vstd::prelude::*;

use crate::digits::{
    dec_digits, digit_val, digit_val_of, digits_value_acc, is_digit, is_digit_char,
    lemma_dec_digits, lemma_digits_value_ge, u64_to_dec,
};
use crate::index::{
    paths_unique, EntryModel, Index, IndexEntry, IndexError, IndexModel, INDEX_VERSION,
};
use crate::text;
use crate::types::FileType;

verus! {

/// A number field: decimal digits terminated by a newline.
pub open spec fn enc_u64(n: nat) -> Seq<char> {
    dec_digits(n) + seq!['\n']
}

/// A string field: the character count, a colon, the characters, a newline.
pub open spec fn enc_str(s: Seq<char>) -> Seq<char> {
    dec_digits(s.len()) + seq![':'] + s + seq!['\n']
}

/// The tag character of a file category.
pub open spec fn cat_char(ft: FileType) -> char {
    match ft {
        FileType::Text => 't',
        FileType::Code => 'c',
        FileType::Pdf => 'p',
        FileType::Docx => 'd',
        FileType::Image => 'i',
        FileType::Other => 'o',
    }
}

/// A category field: the tag character and a newline.
pub open spec fn enc_cat(ft: FileType) -> Seq<char> {
    seq![cat_char(ft), '\n']
}

/// One encoded entry: path, category, text, modified timestamp, size.
pub open spec fn encode_entry(e: EntryModel) -> Seq<char> {
    enc_str(e.path) + enc_cat(e.file_type) + enc_str(e.text) + enc_u64(e.modified as nat)
        + enc_u64(e.size as nat)
}

/// The encoded entry sequence, in order.
pub open spec fn encode_entries(es: Seq<EntryModel>) -> Seq<char>
    decreases es.len(),
{
    if es.len() == 0 {
        Seq::empty()
    } else {
        encode_entry(es.first()) + encode_entries(es.drop_first())
    }
}

/// The encoded cache document: version, directory, creation and update
/// timestamps, entry count, then the entries.
pub open spec fn encode_index(m: IndexModel) -> Seq<char> {
    enc_u64(m.version as nat) + enc_str(m.directory) + enc_u64(m.created_at as nat) + enc_u64(
        m.updated_at as nat,
    ) + enc_u64(m.entries.len()) + encode_entries(m.entries)
}

/// Parse decimal digits up to the terminator, accumulating their value;
/// rejects missing terminators and values beyond `u64::MAX`.
pub open spec fn parse_dec_rec(s: Seq<char>, acc: nat, term: char) -> Option<(nat, Seq<char>)>
    decreases s.len(),
{
    if s.len() == 0 {
        None
    } else if s.first() == term {
        Some((acc, s.drop_first()))
    } else if is_digit(s.first()) && acc * 10 + digit_val(s.first()) <= u64::MAX {
        parse_dec_rec(s.drop_first(), (acc * 10 + digit_val(s.first())) as nat, term)
    } else {
        None
    }
}

/// Parse a number field: at least one digit, then the terminator.
pub open spec fn parse_number(s: Seq<char>, term: char) -> Option<(nat, Seq<char>)> {
    if s.len() > 0 && is_digit(s.first()) {
        parse_dec_rec(s, 0, term)
    } else {
        None
    }
}

/// Parse a string field.
pub open spec fn parse_str_field(s: Seq<char>) -> Option<(Seq<char>, Seq<char>)> {
    match parse_number(s, ':') {
        None => None,
        Some((n, rest)) => if rest.len() >= n + 1 && rest[n as int] == '\n' {
            Some((rest.take(n as int), rest.skip(n as int + 1)))
        } else {
            None
        },
    }
}

/// The category a tag character stands for.
pub open spec fn cat_of_char(c: char) -> Option<FileType> {
    if c == 't' {
        Some(FileType::Text)
    } else if c == 'c' {
        Some(FileType::Code)
    } else if c == 'p' {
        Some(FileType::Pdf)
    } else if c == 'd' {
        Some(FileType::Docx)
    } else if c == 'i' {
        Some(FileType::Image)
    } else if c == 'o' {
        Some(FileType::Other)
    } else {
        None
    }
}

/// Parse a category field.
pub open spec fn parse_cat(s: Seq<char>) -> Option<(FileType, Seq<char>)> {
    if s.len() >= 2 && s[1] == '\n' {
        match cat_of_char(s[0]) {
            Some(ft) => Some((ft, s.skip(2))),
            None => None,
        }
    } else {
        None
    }
}

/// Parse one entry.
pub open spec fn parse_entry(s: Seq<char>) -> Option<(EntryModel, Seq<char>)> {
    match parse_str_field(s) {
        None => None,
        Some((path, r1)) => match parse_cat(r1) {
            None => None,
            Some((ft, r2)) => match parse_str_field(r2) {
                None => None,
                Some((txt, r3)) => match parse_number(r3, '\n') {
                    None => None,
                    Some((modified, r4)) => match parse_number(r4, '\n') {
                        None => None,
                        Some((size, r5)) => Some(
                            (
                                EntryModel {
                                    path,
                                    file_type: ft,
                                    text: txt,
                                    modified: modified as u64,
                                    size: size as u64,
                                },
                                r5,
                            ),
                        ),
                    },
                },
            },
        },
    }
}

/// Parse exactly `count` entries.
pub open spec fn parse_entry_list(s: Seq<char>, count: nat) -> Option<(Seq<EntryModel>, Seq<char>)>
    decreases count,
{
    if count == 0 {
        Some((Seq::empty(), s))
    } else {
        match parse_entry(s) {
            None => None,
            Some((e, rest)) => match parse_entry_list(rest, (count - 1) as nat) {
                None => None,
                Some((es, rest2)) => Some((seq![e] + es, rest2)),
            },
        }
    }
}

/// Parse a whole cache document: all fields in order, nothing left over,
/// and pairwise distinct entry paths. The version is read but not compared;
/// comparing it is the loader's separate, fail-closed check.
pub open spec fn parse_index_doc(s: Seq<char>) -> Option<IndexModel> {
    match parse_number(s, '\n') {
        None => None,
        Some((ver, r1)) => if ver > u32::MAX {
            None
        } else {
            match parse_str_field(r1) {
                None => None,
                Some((dir, r2)) => match parse_number(r2, '\n') {
                    None => None,
                    Some((created, r3)) => match parse_number(r3, '\n') {
                        None => None,
                        Some((updated, r4)) => match parse_number(r4, '\n') {
                            None => None,
                            Some((count, r5)) => match parse_entry_list(r5, count) {
                                None => None,
                                Some((es, r6)) => if r6.len() == 0 && paths_unique(es) {
                                    Some(
                                        IndexModel {
                                            version: ver as u32,
                                            directory: dir,
                                            created_at: created as u64,
                                            updated_at: updated as u64,
                                            entries: es,
                                        },
                                    )
                                } else {
                                    None
                                },
                            },
                        },
                    },
                },
            }
        },
    }
}

/// The lengths a document can carry: a count field holds at most
/// `u64::MAX`.
pub open spec fn encodable(m: IndexModel) -> bool {
    &&& m.directory.len() <= u64::MAX
    &&& m.entries.len() <= u64::MAX
    &&& forall|i: int|
        0 <= i < m.entries.len() ==> (#[trigger] m.entries[i]).path.len() <= u64::MAX
            && m.entries[i].text.len() <= u64::MAX
}

/// Parsing a digit string followed by the terminator accumulates its value.
proof fn lemma_parse_digit_seq(ds: Seq<char>, tail: Seq<char>, acc: nat, term: char)
    requires
        forall|i: int| 0 <= i < ds.len() ==> is_digit(ds[i]),
        !is_digit(term),
        tail.len() > 0,
        tail.first() == term,
        digits_value_acc(ds, acc) <= u64::MAX,
    ensures
        parse_dec_rec(ds + tail, acc, term) == Some(
            (digits_value_acc(ds, acc), tail.drop_first()),
        ),
    decreases ds.len(),
{
    if ds.len() == 0 {
        assert(ds + tail =~= tail);
    } else {
        let d = ds.first();
        assert((ds + tail).first() == d);
        assert(is_digit(d));
        assert(d != term);
        let acc2 = (acc * 10 + digit_val(d)) as nat;
        lemma_digits_value_ge(ds.drop_first(), acc2);
        assert(acc * 10 + digit_val(d) <= u64::MAX);
        assert((ds + tail).drop_first() =~= ds.drop_first() + tail);
        lemma_parse_digit_seq(ds.drop_first(), tail, acc2, term);
    }
}

/// Parsing an encoded number field yields the number and the rest.
proof fn lemma_parse_number_enc(n: nat, tail: Seq<char>, term: char)
    requires
        n <= u64::MAX,
        !is_digit(term),
        tail.len() > 0,
        tail.first() == term,
    ensures
        parse_number(dec_digits(n) + tail, term) == Some((n, tail.drop_first())),
{
    lemma_dec_digits(n);
    assert((dec_digits(n) + tail).first() == dec_digits(n).first());
    assert(is_digit(dec_digits(n).first()));
    lemma_parse_digit_seq(dec_digits(n), tail, 0, term);
}

/// Parsing an encoded `u64` field yields the number and the rest.
proof fn lemma_parse_u64_enc(n: nat, rest: Seq<char>)
    requires
        n <= u64::MAX,
    ensures
        parse_number(enc_u64(n) + rest, '\n') == Some((n, rest)),
{
    let tail = seq!['\n'] + rest;
    assert(enc_u64(n) + rest =~= dec_digits(n) + tail);
    assert(tail.first() == '\n');
    assert(!is_digit('\n'));
    lemma_parse_number_enc(n, tail, '\n');
    assert(tail.drop_first() =~= rest);
}

/// Parsing an encoded string field yields the string and the rest.
proof fn lemma_parse_str_enc(s: Seq<char>, rest: Seq<char>)
    requires
        s.len() <= u64::MAX,
    ensures
        parse_str_field(enc_str(s) + rest) == Some((s, rest)),
{
    let tail = seq![':'] + s + seq!['\n'] + rest;
    assert(enc_str(s) + rest =~= dec_digits(s.len()) + tail);
    assert(tail.first() == ':');
    assert(!is_digit(':'));
    lemma_parse_number_enc(s.len(), tail, ':');
    let inner = s + seq!['\n'] + rest;
    assert(tail.drop_first() =~= inner);
    assert(inner.len() >= s.len() + 1);
    assert(inner[s.len() as int] == '\n');
    assert(inner.take(s.len() as int) =~= s);
    assert(inner.skip(s.len() as int + 1) =~= rest);
}

/// Parsing an encoded category field yields the category and the rest.
proof fn lemma_parse_cat_enc(ft: FileType, rest: Seq<char>)
    ensures
        parse_cat(enc_cat(ft) + rest) == Some((ft, rest)),
{
    let s = enc_cat(ft) + rest;
    assert(s[0] == cat_char(ft));
    assert(s[1] == '\n');
    assert(cat_of_char(cat_char(ft)) == Some(ft));
    assert(s.skip(2) =~= rest);
}

/// Parsing an encoded entry yields the entry and the rest.
proof fn lemma_parse_entry_enc(e: EntryModel, rest: Seq<char>)
    requires
        e.path.len() <= u64::MAX,
        e.text.len() <= u64::MAX,
    ensures
        parse_entry(encode_entry(e) + rest) == Some((e, rest)),
{
    let r1 = enc_cat(e.file_type) + enc_str(e.text) + enc_u64(e.modified as nat) + enc_u64(
        e.size as nat,
    ) + rest;
    assert(encode_entry(e) + rest =~= enc_str(e.path) + r1);
    lemma_parse_str_enc(e.path, r1);
    let r2 = enc_str(e.text) + enc_u64(e.modified as nat) + enc_u64(e.size as nat) + rest;
    assert(r1 =~= enc_cat(e.file_type) + r2);
    lemma_parse_cat_enc(e.file_type, r2);
    let r3 = enc_u64(e.modified as nat) + enc_u64(e.size as nat) + rest;
    assert(r2 =~= enc_str(e.text) + r3);
    lemma_parse_str_enc(e.text, r3);
    let r4 = enc_u64(e.size as nat) + rest;
    assert(r3 =~= enc_u64(e.modified as nat) + r4);
    lemma_parse_u64_enc(e.modified as nat, r4);
    lemma_parse_u64_enc(e.size as nat, rest);
    assert((e.modified as nat) as u64 == e.modified);
    assert((e.size as nat) as u64 == e.size);
}

/// Parsing an encoded entry sequence yields the entries and the rest.
proof fn lemma_parse_entry_list_enc(es: Seq<EntryModel>, rest: Seq<char>)
    requires
        forall|i: int|
            0 <= i < es.len() ==> (#[trigger] es[i]).path.len() <= u64::MAX && es[i].text.len()
                <= u64::MAX,
    ensures
        parse_entry_list(encode_entries(es) + rest, es.len()) == Some((es, rest)),
    decreases es.len(),
{
    if es.len() == 0 {
        assert(encode_entries(es) + rest =~= rest);
        assert(parse_entry_list(rest, 0) == Some((Seq::<EntryModel>::empty(), rest)));
        assert(Seq::<EntryModel>::empty() =~= es);
    } else {
        let e = es.first();
        let tail_enc = encode_entries(es.drop_first()) + rest;
        assert(encode_entries(es) + rest =~= encode_entry(e) + tail_enc);
        assert(es[0] == e);
        lemma_parse_entry_enc(e, tail_enc);
        assert(forall|i: int|
            0 <= i < es.drop_first().len() ==> (#[trigger] es.drop_first()[i]).path.len()
                <= u64::MAX && es.drop_first()[i].text.len() <= u64::MAX) by {
            assert(forall|i: int|
                0 <= i < es.drop_first().len() ==> es.drop_first()[i] == es[i + 1]);
        }
        lemma_parse_entry_list_enc(es.drop_first(), rest);
        assert(seq![e] + es.drop_first() =~= es);
    }
}

/// Append an encoded number field.
fn push_u64_field(out: &mut Vec<char>, n: u64)
    ensures
        final(out)@ == old(out)@ + enc_u64(n as nat),
{
    let mut d = u64_to_dec(n);
    out.append(&mut d);
    out.push('\n');
    proof {
        assert(final(out)@ =~= old(out)@ + enc_u64(n as nat));
    }
}

/// Append an encoded string field.
fn push_str_field(out: &mut Vec<char>, s: &str)
    ensures
        final(out)@ == old(out)@ + enc_str(s@),
{
    let mut cs = text::chars_vec(s);
    let mut d = u64_to_dec(cs.len() as u64);
    out.append(&mut d);
    out.push(':');
    out.append(&mut cs);
    out.push('\n');
    proof {
        assert(final(out)@ =~= old(out)@ + enc_str(s@));
    }
}

/// Append an encoded category field.
fn push_cat_field(out: &mut Vec<char>, ft: FileType)
    ensures
        final(out)@ == old(out)@ + enc_cat(ft),
{
    let c = match ft {
        FileType::Text => 't',
        FileType::Code => 'c',
        FileType::Pdf => 'p',
        FileType::Docx => 'd',
        FileType::Image => 'i',
        FileType::Other => 'o',
    };
    out.push(c);
    out.push('\n');
    proof {
        assert(final(out)@ =~= old(out)@ + enc_cat(ft));
    }
}

/// Append one encoded entry.
fn push_entry(out: &mut Vec<char>, e: &IndexEntry)
    ensures
        final(out)@ == old(out)@ + encode_entry(e@),
{
    push_str_field(out, e.path.as_str());
    push_cat_field(out, e.file_type);
    push_str_field(out, e.extracted_text.as_str());
    push_u64_field(out, e.modified_timestamp);
    push_u64_field(out, e.file_size);
    proof {
        assert(final(out)@ =~= old(out)@ + encode_entry(e@));
    }
}

/// Encoded entry sequences concatenate.
proof fn lemma_encode_entries_append(a: Seq<EntryModel>, b: Seq<EntryModel>)
    ensures
        encode_entries(a + b) == encode_entries(a) + encode_entries(b),
    decreases a.len(),
{
    if a.len() == 0 {
        assert(a + b =~= b);
        assert(encode_entries(a) + encode_entries(b) =~= encode_entries(b));
    } else {
        assert((a + b).first() == a.first());
        assert((a + b).len() > 0);
        assert((a + b).drop_first() =~= a.drop_first() + b);
        lemma_encode_entries_append(a.drop_first(), b);
        assert(encode_entry(a.first()) + (encode_entries(a.drop_first()) + encode_entries(b)) =~= (
        encode_entry(a.first()) + encode_entries(a.drop_first())) + encode_entries(b));
    }
}

impl Index {
    /// Encode this cache as one document, ready to be written to its file.
    pub fn to_document(&self) -> (r: String)
        ensures
            r@ == encode_index(self@),
    {
        let mut out: Vec<char> = Vec::new();
        push_u64_field(&mut out, self.version as u64);
        push_str_field(&mut out, self.directory.as_str());
        push_u64_field(&mut out, self.created_at);
        push_u64_field(&mut out, self.updated_at);
        push_u64_field(&mut out, self.entries.len() as u64);
        let ghost header = out@;
        let mut i: usize = 0;
        proof {
            assert(self@.entries.take(0) =~= Seq::<EntryModel>::empty());
            assert(header + encode_entries(self@.entries.take(0)) =~= header);
        }
        while i < self.entries.len()
            invariant
                i <= self.entries@.len(),
                self@.entries.len() == self.entries@.len(),
                out@ == header + encode_entries(self@.entries.take(i as int)),
            decreases self.entries@.len() - i,
        {
            push_entry(&mut out, &self.entries[i]);
            proof {
                assert(self.entries.deep_view()[i as int] == self.entries@[i as int].deep_view());
                assert(self@.entries.take(i + 1) =~= self@.entries.take(i as int) + seq![
                    self@.entries[i as int],
                ]);
                lemma_encode_entries_append(
                    self@.entries.take(i as int),
                    seq![self@.entries[i as int]],
                );
                assert(encode_entries(seq![self@.entries[i as int]]) =~= encode_entry(
                    self@.entries[i as int],
                )) by {
                    reveal_with_fuel(encode_entries, 3);
                    assert(seq![self@.entries[i as int]].first() == self@.entries[i as int]);
                    assert(seq![self@.entries[i as int]].drop_first() =~= Seq::<
                        EntryModel,
                    >::empty());
                    assert(encode_entry(self@.entries[i as int]) + Seq::<char>::empty()
                        =~= encode_entry(self@.entries[i as int]));
                }
                assert((header + encode_entries(self@.entries.take(i as int))) + encode_entry(
                    self@.entries[i as int],
                ) =~= header + (encode_entries(self@.entries.take(i as int)) + encode_entry(
                    self@.entries[i as int],
                )));
            }
            i = i + 1;
        }
        proof {
            assert(self@.entries.take(self.entries@.len() as int) =~= self@.entries);
            assert(header + encode_entries(self@.entries) =~= encode_index(self@));
        }
        text::string_from_chars(&out)
    }
}

/// Parse a number field at `pos`: the parsed value and the position after
/// the terminator.
fn parse_number_at(s: &Vec<char>, pos: usize, term: char) -> (r: Option<(u64, usize)>)
    requires
        pos <= s@.len(),
        !is_digit(term),
    ensures
        match r {
            Some(v) => pos < v.1 <= s@.len() && parse_number(s@.skip(pos as int), term) == Some(
                (v.0 as nat, s@.skip(v.1 as int)),
            ),
            None => parse_number(s@.skip(pos as int), term) is None,
        },
{
    if pos >= s.len() || !is_digit_char(s[pos]) {
        proof {
            if pos < s@.len() {
                assert(s@.skip(pos as int).first() == s@[pos as int]);
            }
        }
        return None;
    }
    proof {
        assert(s@.skip(pos as int).first() == s@[pos as int]);
    }
    let mut cur: usize = pos;
    let mut acc: u64 = 0;
    loop
        invariant
            pos <= cur <= s@.len(),
            !is_digit(term),
            parse_number(s@.skip(pos as int), term) == parse_dec_rec(
                s@.skip(pos as int),
                0,
                term,
            ),
            parse_dec_rec(s@.skip(pos as int), 0, term) == parse_dec_rec(
                s@.skip(cur as int),
                acc as nat,
                term,
            ),
        decreases s@.len() - cur,
    {
        if cur == s.len() {
            proof {
                assert(s@.skip(cur as int) =~= Seq::<char>::empty());
            }
            return None;
        }
        let c = s[cur];
        proof {
            assert(s@.skip(cur as int).first() == s@[cur as int]);
            assert(s@.skip(cur as int).drop_first() =~= s@.skip(cur as int + 1));
        }
        if c == term {
            return Some((acc, cur + 1));
        }
        if !is_digit_char(c) {
            return None;
        }
        let d = digit_val_of(c);
        let wide: u128 = (acc as u128) * 10 + (d as u128);
        if wide > u64::MAX as u128 {
            return None;
        }
        acc = wide as u64;
        cur = cur + 1;
    }
}

/// Parse a string field at `pos`: the parsed string and the position after
/// its terminating newline.
fn parse_str_at(s: &Vec<char>, pos: usize) -> (r: Option<(String, usize)>)
    requires
        pos <= s@.len(),
    ensures
        match r {
            Some(v) => pos < v.1 <= s@.len() && parse_str_field(s@.skip(pos as int)) == Some(
                (v.0@, s@.skip(v.1 as int)),
            ),
            None => parse_str_field(s@.skip(pos as int)) is None,
        },
{
    proof {
        assert(!is_digit(':'));
    }
    let parsed_len = match parse_number_at(s, pos, ':') {
        None => {
            return None;
        },
        Some(v) => v,
    };
    let n64 = parsed_len.0;
    let p1 = parsed_len.1;
    let ghost rest = s@.skip(p1 as int);
    let remaining = s.len() - p1;
    if n64 >= remaining as u64 {
        proof {
            assert(rest.len() == s@.len() - p1);
            assert(!(rest.len() >= n64 + 1));
        }
        return None;
    }
    let n = n64 as usize;
    proof {
        assert(rest[n as int] == s@[p1 + n]);
    }
    if s[p1 + n] != '\n' {
        return None;
    }
    let content = text::sub_chars(s, p1, p1 + n);
    let out = text::string_from_chars(&content);
    proof {
        assert(rest.take(n as int) =~= s@.subrange(p1 as int, p1 + n));
        assert(rest.skip(n as int + 1) =~= s@.skip(p1 + n + 1));
    }
    Some((out, p1 + n + 1))
}

/// Parse a category field at `pos`.
fn parse_cat_at(s: &Vec<char>, pos: usize) -> (r: Option<(FileType, usize)>)
    requires
        pos <= s@.len(),
    ensures
        match r {
            Some(v) => pos < v.1 <= s@.len() && parse_cat(s@.skip(pos as int)) == Some(
                (v.0, s@.skip(v.1 as int)),
            ),
            None => parse_cat(s@.skip(pos as int)) is None,
        },
{
    let ghost rest = s@.skip(pos as int);
    if s.len() - pos < 2 {
        return None;
    }
    proof {
        assert(rest[0] == s@[pos as int]);
        assert(rest[1] == s@[pos + 1]);
        assert(rest.skip(2) =~= s@.skip(pos + 2));
    }
    if s[pos + 1] != '\n' {
        return None;
    }
    let c = s[pos];
    let ft = if c == 't' {
        FileType::Text
    } else if c == 'c' {
        FileType::Code
    } else if c == 'p' {
        FileType::Pdf
    } else if c == 'd' {
        FileType::Docx
    } else if c == 'i' {
        FileType::Image
    } else if c == 'o' {
        FileType::Other
    } else {
        return None;
    };
    Some((ft, pos + 2))
}

/// Parse one entry at `pos`.
fn parse_entry_at(s: &Vec<char>, pos: usize) -> (r: Option<(IndexEntry, usize)>)
    requires
        pos <= s@.len(),
    ensures
        match r {
            Some(v) => pos < v.1 <= s@.len() && parse_entry(s@.skip(pos as int)) == Some(
                (v.0@, s@.skip(v.1 as int)),
            ),
            None => parse_entry(s@.skip(pos as int)) is None,
        },
{
    let (path, p1) = match parse_str_at(s, pos) {
        None => {
            return None;
        },
        Some(v) => v,
    };
    let (ft, p2) = match parse_cat_at(s, p1) {
        None => {
            return None;
        },
        Some(v) => v,
    };
    let (txt, p3) = match parse_str_at(s, p2) {
        None => {
            return None;
        },
        Some(v) => v,
    };
    proof {
        assert(!is_digit('\n'));
    }
    let (modified, p4) = match parse_number_at(s, p3, '\n') {
        None => {
            return None;
        },
        Some(v) => v,
    };
    let (size, p5) = match parse_number_at(s, p4, '\n') {
        None => {
            return None;
        },
        Some(v) => v,
    };
    let e = IndexEntry::new(path, ft, txt, modified, size);
    Some((e, p5))
}

/// Whether the entries' paths are pairwise distinct.
fn entries_paths_unique(entries: &Vec<IndexEntry>) -> (r: bool)
    ensures
        r == paths_unique(entries.deep_view()),
{
    let n = entries.len();
    let mut i: usize = 0;
    while i < n
        invariant
            i <= n,
            n == entries@.len(),
            forall|k: int, l: int|
                0 <= k < l < n && k < i ==> (#[trigger] entries.deep_view()[k]).path != (
                #[trigger] entries.deep_view()[l]).path,
        decreases n - i,
    {
        let mut j: usize = i + 1;
        while j < n
            invariant
                i < j <= n,
                n == entries@.len(),
                forall|l: int|
                    i < l < j ==> (#[trigger] entries.deep_view()[l]).path
                        != entries.deep_view()[i as int].path,
            decreases n - j,
        {
            proof {
                assert(entries.deep_view()[i as int] == entries@[i as int].deep_view());
                assert(entries.deep_view()[j as int] == entries@[j as int].deep_view());
            }
            if text::str_eq(entries[i].path.as_str(), entries[j].path.as_str()) {
                proof {
                    let dv = entries.deep_view();
                    assert(dv[i as int].path == dv[j as int].path);
                }
                return false;
            }
            j = j + 1;
        }
        i = i + 1;
    }
    true
}

impl Index {
    /// Parse a cache document, as [`Index::to_document`] writes it. A
    /// malformed document is a parse error; a well-formed document whose
    /// version differs from [`INDEX_VERSION`] is rejected whole as a version
    /// mismatch, never migrated.
    pub fn from_document(doc: &str) -> (r: Result<Index, IndexError>)
        ensures
            match parse_index_doc(doc@) {
                Some(m) => if m.version == INDEX_VERSION {
                    r matches Ok(idx) && idx@ == m && idx.wf()
                } else {
                    r matches Err(e) && (e matches IndexError::VersionMismatch {
                        expected,
                        found,
                    } && expected == INDEX_VERSION && found == m.version)
                },
                None => r matches Err(e) && e is ParseError,
            },
    {
        let s = text::chars_vec(doc);
        proof {
            assert(s@.skip(0) =~= doc@);
            assert(!is_digit('\n'));
        }
        let (ver64, p1) = match parse_number_at(&s, 0, '\n') {
            None => {
                return Err(IndexError::ParseError("malformed version field".to_owned()));
            },
            Some(v) => v,
        };
        if ver64 > u32::MAX as u64 {
            return Err(IndexError::ParseError("version out of range".to_owned()));
        }
        let (directory, p2) = match parse_str_at(&s, p1) {
            None => {
                return Err(IndexError::ParseError("malformed directory field".to_owned()));
            },
            Some(v) => v,
        };
        let (created_at, p3) = match parse_number_at(&s, p2, '\n') {
            None => {
                return Err(IndexError::ParseError("malformed creation timestamp".to_owned()));
            },
            Some(v) => v,
        };
        let (updated_at, p4) = match parse_number_at(&s, p3, '\n') {
            None => {
                return Err(IndexError::ParseError("malformed update timestamp".to_owned()));
            },
            Some(v) => v,
        };
        let (count, p5) = match parse_number_at(&s, p4, '\n') {
            None => {
                return Err(IndexError::ParseError("malformed entry count".to_owned()));
            },
            Some(v) => v,
        };
        let mut entries: Vec<IndexEntry> = Vec::new();
        let mut k: u64 = 0;
        let mut cur: usize = p5;
        proof {
            assert(entries.deep_view() =~= Seq::<EntryModel>::empty());
        }
        let mut failed = false;
        while k < count
            invariant_except_break
                k <= count,
                cur <= s@.len(),
                !failed,
                parse_entry_list(s@.skip(p5 as int), count as nat) == (match parse_entry_list(
                    s@.skip(cur as int),
                    (count - k) as nat,
                ) {
                    None => None::<(Seq<EntryModel>, Seq<char>)>,
                    Some(v) => Some((entries.deep_view() + v.0, v.1)),
                }),
            ensures
                failed ==> parse_entry_list(s@.skip(p5 as int), count as nat) is None,
                !failed ==> k == count && cur <= s@.len() && parse_entry_list(
                    s@.skip(p5 as int),
                    count as nat,
                ) == (match parse_entry_list(s@.skip(cur as int), 0) {
                    None => None::<(Seq<EntryModel>, Seq<char>)>,
                    Some(v) => Some((entries.deep_view() + v.0, v.1)),
                }),
            decreases count - k,
        {
            let ghost old_entries = entries.deep_view();
            let step = parse_entry_at(&s, cur);
            match step {
                None => {
                    failed = true;
                    break ;
                },
                Some(v) => {
                    let (e, np) = v;
                    let ghost e_model = e@;
                    entries.push(e);
                    proof {
                        assert(entries.deep_view() =~~= old_entries + seq![e_model]);
                        let tail_list = parse_entry_list(
                            s@.skip(np as int),
                            (count - k - 1) as nat,
                        );
                        match tail_list {
                            None => {},
                            Some(w) => {
                                assert((old_entries + seq![e_model]) + w.0 =~= old_entries + (seq![
                                    e_model,
                                ] + w.0));
                            },
                        }
                    }
                    cur = np;
                    k = k + 1;
                },
            }
        }
        if failed {
            return Err(IndexError::ParseError("malformed entry".to_owned()));
        }
        proof {
            assert(parse_entry_list(s@.skip(cur as int), 0) == Some(
                (Seq::<EntryModel>::empty(), s@.skip(cur as int)),
            ));
            assert(entries.deep_view() + Seq::<EntryModel>::empty() =~= entries.deep_view());
        }
        if cur != s.len() {
            proof {
                assert(s@.skip(cur as int).len() > 0);
            }
            return Err(IndexError::ParseError("unexpected data after entries".to_owned()));
        }
        proof {
            assert(s@.skip(cur as int).len() == 0);
        }
        if !entries_paths_unique(&entries) {
            return Err(IndexError::ParseError("duplicate entry paths".to_owned()));
        }
        let idx = Index {
            version: ver64 as u32,
            directory,
            created_at,
            updated_at,
            entries,
        };
        if idx.version != INDEX_VERSION {
            return Err(
                IndexError::VersionMismatch { expected: INDEX_VERSION, found: idx.version },
            );
        }
        Ok(idx)
    }
}

/// Cache round-trip: parsing an encoded cache document yields exactly the
/// cache that was encoded, its entries map included.
pub proof fn lemma_document_round_trip(m: IndexModel)
    requires
        m.wf(),
        encodable(m),
    ensures
        parse_index_doc(encode_index(m)) == Some(m),
        parse_index_doc(encode_index(m)) matches Some(p) && p.entries_map() == m.entries_map(),
{
    let r1 = enc_str(m.directory) + enc_u64(m.created_at as nat) + enc_u64(m.updated_at as nat)
        + enc_u64(m.entries.len()) + encode_entries(m.entries);
    assert(encode_index(m) =~= enc_u64(m.version as nat) + r1);
    lemma_parse_u64_enc(m.version as nat, r1);
    let r2 = enc_u64(m.created_at as nat) + enc_u64(m.updated_at as nat) + enc_u64(
        m.entries.len(),
    ) + encode_entries(m.entries);
    assert(r1 =~= enc_str(m.directory) + r2);
    lemma_parse_str_enc(m.directory, r2);
    let r3 = enc_u64(m.updated_at as nat) + enc_u64(m.entries.len()) + encode_entries(m.entries);
    assert(r2 =~= enc_u64(m.created_at as nat) + r3);
    lemma_parse_u64_enc(m.created_at as nat, r3);
    let r4 = enc_u64(m.entries.len()) + encode_entries(m.entries);
    assert(r3 =~= enc_u64(m.updated_at as nat) + r4);
    lemma_parse_u64_enc(m.updated_at as nat, r4);
    let r5 = encode_entries(m.entries);
    assert(r4 =~= enc_u64(m.entries.len()) + r5);
    lemma_parse_u64_enc(m.entries.len(), r5);
    assert(r5 =~= encode_entries(m.entries) + Seq::<char>::empty());
    lemma_parse_entry_list_enc(m.entries, Seq::empty());
    assert((m.version as nat) as u32 == m.version);
    assert((m.created_at as nat) as u64 == m.created_at);
    assert((m.updated_at as nat) as u64 == m.updated_at);
}

} // verus!
