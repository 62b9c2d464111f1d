//! Binary-content detection: decide from a file's leading bytes whether it
//! is binary (and so skipped by the collector), by sniffed MIME type first
//! and by byte statistics as a fallback.

use vstd::prelude::*;

use crate::matcher::occurs_at;
use crate::text;

verus! {

/// The MIME type the `infer` crate sniffs from these bytes, when it
/// recognises one.
pub uninterp spec fn sniffed_mime(bytes: Seq<u8>) -> Option<Seq<char>>;

/// Relies on `infer::get` and `infer::Type::mime_type`: the MIME type
/// sniffed from the magic bytes of the buffer, a function of the bytes
/// alone.
#[verifier::external_body]
fn sniff_mime(data: &Vec<u8>) -> (r: Option<String>)
    ensures
        r matches Some(m) ==> sniffed_mime(data@) == Some(m@),
        r is None ==> sniffed_mime(data@) is None,
{
    infer::get(data).map(|t| t.mime_type().to_string())
}

/// `needle` occurs somewhere in `hay`.
pub open spec fn contains_seq(hay: Seq<char>, needle: Seq<char>) -> bool {
    exists|i: int| occurs_at(hay, needle, i)
}

/// Whether the characters of `needle` occur in `hay`.
fn contains_sub(hay: &Vec<char>, needle: &str) -> (r: bool)
    ensures
        r == contains_seq(hay@, needle@),
{
    let np = text::chars_vec(needle);
    if np.len() > hay.len() {
        proof {
            assert forall|i: int| !occurs_at(hay@, needle@, i) by {}
        }
        return false;
    }
    let bound = hay.len() - np.len();
    let mut from: usize = 0;
    loop
        invariant
            from <= bound,
            bound + np@.len() == hay@.len(),
            np@ == needle@,
            forall|i: int| 0 <= i < from ==> !occurs_at(hay@, needle@, i),
        decreases bound - from,
    {
        if probe_at(hay, &np, from) {
            proof {
                assert(occurs_at(hay@, needle@, from as int));
            }
            return true;
        }
        if from == bound {
            proof {
                assert forall|i: int| !occurs_at(hay@, needle@, i) by {
                    if 0 <= i <= bound {
                        assert(!occurs_at(hay@, needle@, i));
                    }
                }
            }
            return false;
        }
        from = from + 1;
    }
}

/// Whether `np` occurs in `hay` at position `from`.
fn probe_at(hay: &Vec<char>, np: &Vec<char>, from: usize) -> (r: bool)
    requires
        from + np@.len() <= hay@.len(),
    ensures
        r == occurs_at(hay@, np@, from as int),
{
    let hay_len = hay.len();
    let mut k: usize = 0;
    while k < np.len()
        invariant
            k <= np@.len(),
            hay_len == hay@.len(),
            from + np@.len() <= hay@.len(),
            forall|j: int| 0 <= j < k ==> hay@[from + j] == np@[j],
        decreases np@.len() - k,
    {
        if hay[from + k] != np[k] {
            proof {
                if occurs_at(hay@, np@, from as int) {
                    assert(hay@.subrange(from as int, from + np@.len())[k as int] == hay@[from
                        + k]);
                }
            }
            return false;
        }
        k = k + 1;
    }
    proof {
        assert(hay@.subrange(from as int, from + np@.len()) =~= np@);
    }
    true
}

/// What a sniffed MIME type says: PDF and image types are searched (not
/// binary); other `application/` types are binary unless they smell of JSON,
/// XML or JavaScript; everything else defers to the byte statistics.
pub open spec fn mime_verdict(m: Seq<char>) -> Option<bool> {
    if m == "application/pdf"@ || "image/"@.is_prefix_of(m) {
        Some(false)
    } else if "application/"@.is_prefix_of(m) && !contains_seq(m, "json"@) && !contains_seq(
        m,
        "xml"@,
    ) && !contains_seq(m, "javascript"@) {
        Some(true)
    } else {
        None
    }
}

/// The number of zero bytes in `s`.
pub open spec fn null_count(s: Seq<u8>) -> nat
    decreases s.len(),
{
    if s.len() == 0 {
        0
    } else {
        null_count(s.drop_last()) + if s.last() == 0 {
            1nat
        } else {
            0nat
        }
    }
}

/// Whether a byte is a control byte that plain text does not use.
pub open spec fn is_unprintable(b: u8) -> bool {
    b < 32 && b != 10 && b != 13 && b != 9
}

/// The number of unprintable control bytes in `s`.
pub open spec fn unprintable_count(s: Seq<u8>) -> nat
    decreases s.len(),
{
    if s.len() == 0 {
        0
    } else {
        unprintable_count(s.drop_last()) + if is_unprintable(s.last()) {
            1nat
        } else {
            0nat
        }
    }
}

/// The byte-statistics fallback: binary when more than a tenth of the bytes
/// are zero, or more than a fifth are unprintable control bytes.
pub open spec fn bytes_look_binary(s: Seq<u8>) -> bool {
    ||| null_count(s) > s.len() / 10
    ||| unprintable_count(s) > s.len() / 5
}

/// Whether a file whose leading bytes are `prefix` is binary: by MIME
/// verdict when the sniffer recognises the type, by byte statistics
/// otherwise.
pub open spec fn is_binary_of(prefix: Seq<u8>) -> bool {
    match sniffed_mime(prefix) {
        Some(m) => match mime_verdict(m) {
            Some(v) => v,
            None => bytes_look_binary(prefix),
        },
        None => bytes_look_binary(prefix),
    }
}

/// Count the zero bytes and the unprintable control bytes of `s`.
fn count_suspicious(s: &Vec<u8>) -> (r: (usize, usize))
    ensures
        r.0 == null_count(s@),
        r.1 == unprintable_count(s@),
{
    let mut nulls: usize = 0;
    let mut ctrl: usize = 0;
    let mut i: usize = 0;
    proof {
        assert(s@.take(0) =~= Seq::<u8>::empty());
    }
    while i < s.len()
        invariant
            i <= s@.len(),
            nulls == null_count(s@.take(i as int)),
            ctrl == unprintable_count(s@.take(i as int)),
            nulls <= i,
            ctrl <= i,
        decreases s@.len() - i,
    {
        proof {
            assert(s@.take(i + 1).drop_last() =~= s@.take(i as int));
            assert(s@.take(i + 1).last() == s@[i as int]);
        }
        let b = s[i];
        if b == 0 {
            nulls = nulls + 1;
        }
        if b < 32 && b != 10 && b != 13 && b != 9 {
            ctrl = ctrl + 1;
        }
        i = i + 1;
    }
    proof {
        assert(s@.take(s@.len() as int) =~= s@);
    }
    (nulls, ctrl)
}

/// Decide from a file's leading bytes whether the file is binary: known
/// document and image MIME types are searched, other recognised
/// `application/` types are binary, and unrecognised content is judged by
/// its share of zero and unprintable bytes.
pub fn is_binary_file(prefix: &Vec<u8>) -> (r: bool)
    ensures
        r == is_binary_of(prefix@),
{
    match sniff_mime(prefix) {
        Some(m) => {
            let chars = text::chars_vec(m.as_str());
            if text::eq_str(&chars, "application/pdf") || text::starts_with_lit(&chars, "image/") {
                return false;
            }
            if text::starts_with_lit(&chars, "application/") && !contains_sub(&chars, "json")
                && !contains_sub(&chars, "xml") && !contains_sub(&chars, "javascript") {
                return true;
            }
        },
        None => {},
    }
    let counts = count_suspicious(prefix);
    let n = prefix.len();
    counts.0 > n / 10 || counts.1 > n / 5
}

} // verus!
