//! Text post-processors: decoding raw bytes under a named character
//! encoding, and reversing a string by user-perceived characters.

use vstd::prelude::*;

use encoding::label::encoding_from_whatwg_label;
use encoding::DecoderTrap;
use encoding::Encoding;
use unicode_segmentation::UnicodeSegmentation;

use vstd::string::StringExecFns;

use crate::errors::KError;
use crate::errors::KResult;

verus! {

/// What decoding `bytes` under the WHATWG label `label` yields: `None` when
/// no encoding is registered under the label, otherwise the decoded text.
pub uninterp spec fn whatwg_decoded(label: Seq<char>, bytes: Seq<u8>) -> Option<Seq<char>>;

/// What decoding `bytes` as code page 437 yields: one character per byte,
/// by a fixed table.
pub uninterp spec fn cp437_decoded(bytes: Seq<u8>) -> Seq<char>;

/// The code page 437 table used here starts at byte `0x05`; bytes below it
/// have no entry and cannot be decoded.
pub open spec fn cp437_representable(bytes: Seq<u8>) -> bool {
    forall|i: int| 0 <= i < bytes.len() ==> bytes[i] >= 5
}

/// The extended grapheme clusters of a text, in order.
pub uninterp spec fn grapheme_split(s: Seq<char>) -> Seq<Seq<char>>;

/// An ASCII upper-case letter lowered; any other character as it is.
pub open spec fn ascii_lower_char(c: char) -> char {
    if 65 <= c as u32 && c as u32 <= 90 {
        ((c as u32) + 32) as char
    } else {
        c
    }
}

/// Equality of two texts up to ASCII case.
pub open spec fn ascii_caseless_eq(a: Seq<char>, b: Seq<char>) -> bool {
    a.map_values(|c: char| ascii_lower_char(c)) == b.map_values(|c: char| ascii_lower_char(c))
}

/// Relies on `encoding::label::encoding_from_whatwg_label` and
/// `Encoding::decode` with `DecoderTrap::Replace`: the lookup is a fixed
/// table from labels to encodings, and replacement decoding never fails, so
/// the outcome is a function of the label and the bytes alone.
#[verifier::external_body]
fn decode_whatwg(bytes: &Vec<u8>, label: &str) -> (r: Option<String>)
    ensures
        match r {
            Some(s) => whatwg_decoded(label@, bytes@) == Some(s@),
            None => whatwg_decoded(label@, bytes@) is None,
        },
{
    let enc = encoding_from_whatwg_label(label)?;
    Some(
        enc.decode(bytes.as_slice(), DecoderTrap::Replace).expect(
            "replacement decoding does not fail",
        ),
    )
}

/// Relies on `cp437::Reader::consume`: each byte maps to one character by
/// the code page 437 table, a function of the bytes alone. The table it
/// goes through, `cp437::convert_byte`, has entries for bytes `0x05` and up
/// only and aborts on anything below, so such bytes are excluded here and
/// turned into an ordinary error by the caller.
#[verifier::external_body]
fn decode_cp437(bytes: &Vec<u8>) -> (r: String)
    requires
        cp437_representable(bytes@),
    ensures
        r@ == cp437_decoded(bytes@),
{
    let mut buffer = std::io::Read::bytes(bytes.as_slice());
    let mut reader = cp437::Reader::new(&mut buffer);
    reader.consume(bytes.len())
}

/// True when every byte has an entry in the code page 437 table.
fn cp437_check(bytes: &Vec<u8>) -> (r: bool)
    ensures
        r == cp437_representable(bytes@),
{
    let mut i: usize = 0;
    while i < bytes.len()
        invariant
            i <= bytes@.len(),
            forall|j: int| 0 <= j < i ==> bytes@[j] >= 5,
        decreases bytes@.len() - i,
    {
        if bytes[i] < 5 {
            return false;
        }
        i = i + 1;
    }
    true
}

/// Relies on `str::eq_ignore_ascii_case`: true exactly when the two strings
/// agree letter for letter up to ASCII case.
#[verifier::external_body]
fn label_matches(label: &str, fixed: &str) -> (r: bool)
    ensures
        r == ascii_caseless_eq(label@, fixed@),
{
    label.eq_ignore_ascii_case(fixed)
}

/// Decode bytes as text under a case-insensitive encoding label: by the
/// WHATWG registry when the label is known there, by the code page 437
/// table under its two labels, and an `UnknownEncoding` failure otherwise.
/// Malformed input under a WHATWG encoding decodes to replacement
/// characters rather than failing; a byte without a code page 437 entry
/// yields a `BytesDecodingError`.
pub fn bytes_to_str(bytes: &Vec<u8>, label: &str) -> (r: KResult<String>)
    ensures
        whatwg_decoded(label@, bytes@) matches Some(t) ==> (r matches Ok(s) && s@ == t),
        whatwg_decoded(label@, bytes@) is None && (ascii_caseless_eq(label@, "cp437"@)
            || ascii_caseless_eq(label@, "ibm437"@)) && cp437_representable(bytes@) ==> (
        r matches Ok(s) && s@ == cp437_decoded(bytes@)),
        whatwg_decoded(label@, bytes@) is None && (ascii_caseless_eq(label@, "cp437"@)
            || ascii_caseless_eq(label@, "ibm437"@)) && !cp437_representable(bytes@) ==> (
        r matches Err(e) && e matches KError::BytesDecodingError { msg } && msg@
            == "a byte below 0x05 has no code page 437 entry"@),
        whatwg_decoded(label@, bytes@) is None && !ascii_caseless_eq(label@, "cp437"@)
            && !ascii_caseless_eq(label@, "ibm437"@) ==> (r matches Err(e) && e matches
            KError::UnknownEncoding { name } && name@ == label@),
{
    match decode_whatwg(bytes, label) {
        Some(s) => Ok(s),
        None => {
            if label_matches(label, "cp437") || label_matches(label, "ibm437") {
                if cp437_check(bytes) {
                    Ok(decode_cp437(bytes))
                } else {
                    Err(
                        KError::BytesDecodingError {
                            msg: "a byte below 0x05 has no code page 437 entry".to_owned(),
                        },
                    )
                }
            } else {
                Err(KError::UnknownEncoding { name: label.to_owned() })
            }
        },
    }
}

/// Relies on `unicode_segmentation::UnicodeSegmentation::graphemes` over
/// extended grapheme clusters: the split depends on the characters alone,
/// and the clusters concatenate back to the input.
#[verifier::external_body]
fn split_graphemes(s: &str) -> (r: Vec<String>)
    ensures
        r@.map_values(|g: String| g@) == grapheme_split(s@),
        r@.map_values(|g: String| g@).flatten() == s@,
{
    s.graphemes(true).map(|g| g.to_owned()).collect()
}

/// Reverse a string by user-perceived character (extended grapheme
/// cluster), not by code unit, so combining sequences survive the reversal.
pub fn reverse_string(s: &str) -> (r: KResult<String>)
    ensures
        r matches Ok(t) && t@ == grapheme_split(s@).reverse().flatten(),
{
    let gs = split_graphemes(s);
    let ghost m = gs@.map_values(|g: String| g@);
    let mut out = String::new();
    let mut i: usize = gs.len();
    proof {
        assert(m.subrange(i as int, m.len() as int).reverse() =~= Seq::<Seq<char>>::empty());
        assert(m.subrange(i as int, m.len() as int).reverse().flatten() =~= Seq::<char>::empty());
    }
    while i > 0
        invariant
            i <= gs@.len(),
            m == gs@.map_values(|g: String| g@),
            out@ == m.subrange(i as int, m.len() as int).reverse().flatten(),
        decreases i,
    {
        let g = &gs[i - 1];
        out.append(g.as_str());
        proof {
            let tail = m.subrange(i as int, m.len() as int);
            let tail1 = m.subrange(i - 1, m.len() as int);
            assert(tail1.reverse() =~= tail.reverse().push(m[i - 1]));
            tail.reverse().lemma_flatten_push(m[i - 1]);
        }
        i = i - 1;
    }
    proof {
        assert(m.subrange(0, m.len() as int) =~= m);
    }
    Ok(out)
}

} // verus!
