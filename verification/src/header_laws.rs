//! What holds of every header decode: how far it reads, how long a header
//! is, and that its outcome rests on the bytes it has read and on no
//! others.

use crate::error::Field;
use crate::header::{
    cleaning_at, cleaning_len, cleanings_at, cleanings_len, header_len, header_of, texts_at,
    texts_len,
};
use crate::text::{text_at, text_len};
use crate::wire::{le_u32_at, shorter, signature, signature_at, u32s_at, u64s_at};
use vstd::prelude::*;
use vstd::utf8::decode_utf8_encode_utf8;

verus! {

/// Both inputs hold `n` bytes or more, and the same first `n`.
pub open spec fn same_up_to(s1: Seq<u8>, s2: Seq<u8>, n: int) -> bool {
    &&& n <= s1.len()
    &&& n <= s2.len()
    &&& forall|i: int| 0 <= i < n ==> s1[i] == s2[i]
}

/// A signature that was found is found again in every input with the same
/// bytes up to its end.
proof fn lemma_signature_agrees(s1: Seq<u8>, s2: Seq<u8>, at: int, field: Field)
    requires
        0 <= at <= s1.len(),
        signature_at(s1, at, field) matches Ok(end) && same_up_to(s1, s2, end),
    ensures
        signature_at(s2, at, field) == signature_at(s1, at, field),
{
    assert(s2.subrange(at, at + 6) == s1.subrange(at, at + 6));
}

/// A signature that does not match cannot be mended by more input.
proof fn lemma_signature_stays_wrong(s: Seq<u8>, more: Seq<u8>, at: int, field: Field)
    requires
        0 <= at <= s.len(),
        signature_at(s, at, field) matches Err(fault) && fault.is_fatal(),
    ensures
        signature_at(s + more, at, field) == signature_at(s, at, field),
{
    let seen = shorter(s.len() - at, 6);
    let seen_then = shorter((s + more).len() - at, 6);
    assert(s.subrange(at, at + seen) == (s + more).subrange(at, at + seen_then).take(seen));
    assert(signature().take(seen) == signature().take(seen_then).take(seen));
}

/// A text field that was decoded lies within the input, and its length is
/// that of its count and its bytes.
proof fn lemma_text_within(s: Seq<u8>, at: int, field: Field)
    requires
        0 <= at,
    ensures
        text_at(s, at, field) matches Ok((end, text)) ==> end == at + text_len(text) && end
            <= s.len(),
{
    if text_at(s, at, field) is Ok {
        let end = at + 4 + le_u32_at(s, at);
        decode_utf8_encode_utf8(s.subrange(at + 4, end));
    }
}

/// A text field that was decoded decodes alike in every input with the same
/// bytes up to its end.
proof fn lemma_text_agrees(s1: Seq<u8>, s2: Seq<u8>, at: int, field: Field)
    requires
        0 <= at,
        text_at(s1, at, field) matches Ok((end, _)) && same_up_to(s1, s2, end),
    ensures
        text_at(s2, at, field) == text_at(s1, at, field),
{
    let end = at + 4 + le_u32_at(s1, at);
    assert(s2.subrange(at + 4, end) == s1.subrange(at + 4, end));
}

/// A text field that is not UTF-8 cannot be mended by more input.
proof fn lemma_text_stays_wrong(s: Seq<u8>, more: Seq<u8>, at: int, field: Field)
    requires
        0 <= at,
        text_at(s, at, field) matches Err(fault) && fault.is_fatal(),
    ensures
        text_at(s + more, at, field) == text_at(s, at, field),
{
    let end = at + 4 + le_u32_at(s, at);
    assert((s + more).subrange(at + 4, end) == s.subrange(at + 4, end));
}

/// A cleaning record that was decoded lies within the input, and its
/// length is that of its fixed part and its graph name.
proof fn lemma_cleaning_within(s: Seq<u8>, at: int)
    requires
        0 <= at,
    ensures
        cleaning_at(s, at) matches Ok((end, record)) ==> end == at + cleaning_len(record) && end
            <= s.len(),
{
    lemma_text_within(s, at + 12, Field::GraphName);
}

/// A cleaning record that was decoded decodes alike in every input with the
/// same bytes up to its end.
proof fn lemma_cleaning_agrees(s1: Seq<u8>, s2: Seq<u8>, at: int)
    requires
        0 <= at,
        cleaning_at(s1, at) matches Ok((end, _)) && same_up_to(s1, s2, end),
    ensures
        cleaning_at(s2, at) == cleaning_at(s1, at),
{
    lemma_text_within(s1, at + 12, Field::GraphName);
    lemma_text_agrees(s1, s2, at + 12, Field::GraphName);
}

/// A cleaning record that is wrong cannot be mended by more input.
proof fn lemma_cleaning_stays_wrong(s: Seq<u8>, more: Seq<u8>, at: int)
    requires
        0 <= at,
        cleaning_at(s, at) matches Err(fault) && fault.is_fatal(),
    ensures
        cleaning_at(s + more, at) == cleaning_at(s, at),
{
    lemma_text_stays_wrong(s, more, at + 12, Field::GraphName);
}

/// A run of text fields that was decoded has one text for each field, lies
/// within the input, and is as long as its fields together.
proof fn lemma_texts_within(s: Seq<u8>, at: int, n: nat, field: Field)
    requires
        0 <= at <= s.len(),
    ensures
        texts_at(s, at, n, field) matches Ok((end, texts)) ==> texts.len() == n && end == at
            + texts_len(texts) && at <= end <= s.len(),
    decreases n,
{
    if n > 0 {
        lemma_texts_within(s, at, (n - 1) as nat, field);
        if let Ok((mid, done)) = texts_at(s, at, (n - 1) as nat, field) {
            lemma_text_within(s, mid, field);
            if let Ok((end, text)) = text_at(s, mid, field) {
                assert(done.push(text).drop_last() == done);
            }
        }
    }
}

/// A run of text fields that was decoded decodes alike in every input with
/// the same bytes up to its end.
proof fn lemma_texts_agrees(s1: Seq<u8>, s2: Seq<u8>, at: int, n: nat, field: Field)
    requires
        0 <= at <= s1.len(),
        texts_at(s1, at, n, field) matches Ok((end, _)) && same_up_to(s1, s2, end),
    ensures
        texts_at(s2, at, n, field) == texts_at(s1, at, n, field),
    decreases n,
{
    if n > 0 {
        lemma_texts_within(s1, at, (n - 1) as nat, field);
        let mid = texts_at(s1, at, (n - 1) as nat, field)->Ok_0.0;
        lemma_text_within(s1, mid, field);
        lemma_texts_agrees(s1, s2, at, (n - 1) as nat, field);
        lemma_text_agrees(s1, s2, mid, field);
    }
}

/// A run of text fields that is wrong cannot be mended by more input.
proof fn lemma_texts_stays_wrong(s: Seq<u8>, more: Seq<u8>, at: int, n: nat, field: Field)
    requires
        0 <= at <= s.len(),
        texts_at(s, at, n, field) matches Err(fault) && fault.is_fatal(),
    ensures
        texts_at(s + more, at, n, field) == texts_at(s, at, n, field),
    decreases n,
{
    if n > 0 {
        match texts_at(s, at, (n - 1) as nat, field) {
            Ok((mid, _)) => {
                lemma_texts_within(s, at, (n - 1) as nat, field);
                lemma_texts_agrees(s, s + more, at, (n - 1) as nat, field);
                lemma_text_stays_wrong(s, more, mid, field);
            },
            Err(_) => {
                lemma_texts_stays_wrong(s, more, at, (n - 1) as nat, field);
            },
        }
    }
}

/// A run of cleaning records that was decoded has one value for each
/// record, lies within the input, and is as long as its records together.
proof fn lemma_cleanings_within(s: Seq<u8>, at: int, n: nat)
    requires
        0 <= at <= s.len(),
    ensures
        cleanings_at(s, at, n) matches Ok((end, records)) ==> records.len() == n && end == at
            + cleanings_len(records) && at <= end <= s.len(),
    decreases n,
{
    if n > 0 {
        lemma_cleanings_within(s, at, (n - 1) as nat);
        if let Ok((mid, done)) = cleanings_at(s, at, (n - 1) as nat) {
            lemma_cleaning_within(s, mid);
            if let Ok((end, record)) = cleaning_at(s, mid) {
                assert(done.push(record).drop_last() == done);
            }
        }
    }
}

/// A run of cleaning records that was decoded decodes alike in every input
/// with the same bytes up to its end.
proof fn lemma_cleanings_agrees(s1: Seq<u8>, s2: Seq<u8>, at: int, n: nat)
    requires
        0 <= at <= s1.len(),
        cleanings_at(s1, at, n) matches Ok((end, _)) && same_up_to(s1, s2, end),
    ensures
        cleanings_at(s2, at, n) == cleanings_at(s1, at, n),
    decreases n,
{
    if n > 0 {
        lemma_cleanings_within(s1, at, (n - 1) as nat);
        let mid = cleanings_at(s1, at, (n - 1) as nat)->Ok_0.0;
        lemma_cleaning_within(s1, mid);
        lemma_cleanings_agrees(s1, s2, at, (n - 1) as nat);
        lemma_cleaning_agrees(s1, s2, mid);
    }
}

/// A run of cleaning records that is wrong cannot be mended by more input.
proof fn lemma_cleanings_stays_wrong(s: Seq<u8>, more: Seq<u8>, at: int, n: nat)
    requires
        0 <= at <= s.len(),
        cleanings_at(s, at, n) matches Err(fault) && fault.is_fatal(),
    ensures
        cleanings_at(s + more, at, n) == cleanings_at(s, at, n),
    decreases n,
{
    if n > 0 {
        match cleanings_at(s, at, (n - 1) as nat) {
            Ok((mid, _)) => {
                lemma_cleanings_within(s, at, (n - 1) as nat);
                lemma_cleanings_agrees(s, s + more, at, (n - 1) as nat);
                lemma_cleaning_stays_wrong(s, more, mid);
            },
            Err(_) => {
                lemma_cleanings_stays_wrong(s, more, at, (n - 1) as nat);
            },
        }
    }
}

/// A header that was decoded has one entry for each colour in each of its
/// sequences, lies within the input, and takes exactly the bytes of its
/// parts: `6 + 16 + 4c + 8c`, the sample names, `16c`, the cleaning records,
/// and `6`.
pub proof fn lemma_header_within(s: Seq<u8>)
    ensures
        header_of(s) matches Ok((end, header)) ==> header.wf() && end == header_len(header) && 0
            <= end <= s.len(),
{
    if let Ok((end, header)) = header_of(s) {
        let c = le_u32_at(s, 18);
        lemma_texts_within(s, 22 + 12 * c, c as nat, Field::SampleName);
        let names_end = texts_at(s, 22 + 12 * c, c as nat, Field::SampleName)->Ok_0.0;
        lemma_cleanings_within(s, names_end + 16 * c, c as nat);
    }
}

/// The outcome of a header decode rests on the bytes of the header alone:
/// every input that begins with the same bytes decodes to the same header.
pub proof fn lemma_header_agrees(s1: Seq<u8>, s2: Seq<u8>)
    requires
        header_of(s1) matches Ok((end, _)) && same_up_to(s1, s2, end),
    ensures
        header_of(s2) == header_of(s1),
{
    let c = le_u32_at(s1, 18);
    lemma_texts_within(s1, 22 + 12 * c, c as nat, Field::SampleName);
    let names_end = texts_at(s1, 22 + 12 * c, c as nat, Field::SampleName)->Ok_0.0;
    lemma_cleanings_within(s1, names_end + 16 * c, c as nat);
    let cleaning_end = cleanings_at(s1, names_end + 16 * c, c as nat)->Ok_0.0;
    lemma_signature_agrees(s1, s2, 0, Field::LeadingSignature);
    lemma_texts_agrees(s1, s2, 22 + 12 * c, c as nat, Field::SampleName);
    lemma_cleanings_agrees(s1, s2, names_end + 16 * c, c as nat);
    lemma_signature_agrees(s1, s2, cleaning_end, Field::TrailingSignature);
    assert(u32s_at(s1, 22, c as nat) == u32s_at(s2, 22, c as nat));
    assert(u64s_at(s1, 22 + 4 * c, c as nat) == u64s_at(s2, 22 + 4 * c, c as nat));
}

/// Decoding only the bytes that a header took yields the same header.
pub proof fn lemma_header_decodes_alone(s: Seq<u8>)
    ensures
        header_of(s) matches Ok((end, _)) ==> header_of(s.take(end)) == header_of(s),
{
    if let Ok((end, _)) = header_of(s) {
        lemma_header_within(s);
        lemma_header_agrees(s, s.take(end));
    }
}

/// A header that was decoded stays as it is when more input follows.
pub proof fn lemma_header_stays(s: Seq<u8>, more: Seq<u8>)
    requires
        header_of(s) is Ok,
    ensures
        header_of(s + more) == header_of(s),
{
    lemma_header_within(s);
    lemma_header_agrees(s, s + more);
}

/// A header that is wrong cannot be mended by more input: the error, its
/// offset and its field stay.
pub proof fn lemma_header_stays_wrong(s: Seq<u8>, more: Seq<u8>)
    requires
        header_of(s) matches Err(fault) && fault.is_fatal(),
    ensures
        header_of(s + more) == header_of(s),
{
    let t = s + more;
    match signature_at(s, 0, Field::LeadingSignature) {
        Err(_) => {
            lemma_signature_stays_wrong(s, more, 0, Field::LeadingSignature);
        },
        Ok(_) => {
            lemma_signature_agrees(s, t, 0, Field::LeadingSignature);
            let c = le_u32_at(s, 18);
            match texts_at(s, 22 + 12 * c, c as nat, Field::SampleName) {
                Err(_) => {
                    lemma_texts_stays_wrong(s, more, 22 + 12 * c, c as nat, Field::SampleName);
                },
                Ok((names_end, _)) => {
                    lemma_texts_within(s, 22 + 12 * c, c as nat, Field::SampleName);
                    lemma_texts_agrees(s, t, 22 + 12 * c, c as nat, Field::SampleName);
                    match cleanings_at(s, names_end + 16 * c, c as nat) {
                        Err(_) => {
                            lemma_cleanings_stays_wrong(s, more, names_end + 16 * c, c as nat);
                        },
                        Ok((cleaning_end, _)) => {
                            lemma_cleanings_within(s, names_end + 16 * c, c as nat);
                            lemma_cleanings_agrees(s, t, names_end + 16 * c, c as nat);
                            lemma_signature_stays_wrong(
                                s,
                                more,
                                cleaning_end,
                                Field::TrailingSignature,
                            );
                        },
                    }
                },
            }
        },
    }
}

} // verus!
