//! The reason a list gives for a listing: how the octets of its text records
//! become one message.

use std::string::FromUtf8Error;
use vstd::prelude::*;
use vstd::string::StringExecFns;
use vstd::utf8::{decode_utf8, valid_utf8};

verus! {

/// The error of `String::from_utf8`, carried through as an opaque value.
#[verifier::external_type_specification]
#[verifier::external_body]
pub struct ExFromUtf8Error(FromUtf8Error);

/// `String::from_utf8` succeeds exactly on well-formed UTF-8, and the string
/// it then makes holds the characters that the octets encode.
pub assume_specification[ String::from_utf8 ](vec: Vec<u8>) -> (made: Result<String, FromUtf8Error>)
    ensures
        made is Ok <==> valid_utf8(vec@),
        made matches Ok(text) ==> text@ == decode_utf8(vec@),
;

/// The text of one chunk of a record: its characters where the octets are
/// well-formed UTF-8, nothing where they are not.
pub open spec fn chunk_text(chunk: Seq<u8>) -> Seq<char> {
    if valid_utf8(chunk) {
        decode_utf8(chunk)
    } else {
        Seq::empty()
    }
}

/// The parts with one space between each two neighbours.
pub open spec fn joined(parts: Seq<Seq<char>>) -> Seq<char>
    decreases parts.len(),
{
    if parts.len() == 0 {
        Seq::empty()
    } else if parts.len() == 1 {
        parts[0]
    } else {
        joined(parts.drop_last()) + seq![' '] + parts.last()
    }
}

/// The texts of the chunks of one record.
pub open spec fn chunk_texts(record: Seq<Seq<u8>>) -> Seq<Seq<char>> {
    record.map_values(|chunk: Seq<u8>| chunk_text(chunk))
}

/// The text of one record: its chunks, joined.
pub open spec fn record_text(record: Seq<Seq<u8>>) -> Seq<char> {
    joined(chunk_texts(record))
}

/// The texts of the records of an answer.
pub open spec fn record_texts(records: Seq<Seq<Seq<u8>>>) -> Seq<Seq<char>> {
    records.map_values(|record: Seq<Seq<u8>>| record_text(record))
}

/// The text of a whole answer: its records, joined.
pub open spec fn message_text(records: Seq<Seq<Seq<u8>>>) -> Seq<char> {
    joined(record_texts(records))
}

/// The message of an answer: its text, or nothing where the text is empty.
pub open spec fn message_of(records: Seq<Seq<Seq<u8>>>) -> Option<Seq<char>> {
    let text = message_text(records);
    if text.len() == 0 {
        None
    } else {
        Some(text)
    }
}

/// Joining one part more: a space goes before it unless it is the first.
pub proof fn lemma_joined_push(parts: Seq<Seq<char>>, part: Seq<char>)
    ensures
        joined(parts.push(part)) == if parts.len() == 0 {
            part
        } else {
            joined(parts) + seq![' '] + part
        },
{
    assert(parts.push(part).drop_last() =~= parts);
}

/// Joining two runs of parts, neither of them empty, puts one space between
/// what each run joins to.
pub proof fn lemma_joined_concat(front: Seq<Seq<char>>, back: Seq<Seq<char>>)
    requires
        front.len() > 0,
        back.len() > 0,
    ensures
        joined(front + back) == joined(front) + seq![' '] + joined(back),
    decreases back.len(),
{
    let rest = back.drop_last();
    assert((front + back).drop_last() =~= front + rest);
    if rest.len() == 0 {
        assert(front + rest =~= front);
    } else {
        lemma_joined_concat(front, rest);
        assert(joined(front + back) =~= joined(front) + seq![' '] + joined(back));
    }
}

/// A join holds at least the spaces between its parts, and nothing but them
/// where every part is empty.
pub proof fn lemma_joined_len(parts: Seq<Seq<char>>)
    ensures
        parts.len() > 0 ==> joined(parts).len() >= parts.len() - 1,
        (forall|i: int| 0 <= i < parts.len() ==> (#[trigger] parts[i]).len() == 0) ==> joined(
            parts,
        ).len() == if parts.len() == 0 {
            0
        } else {
            parts.len() - 1
        },
    decreases parts.len(),
{
    if parts.len() > 1 {
        let front = parts.drop_last();
        lemma_joined_len(front);
        if forall|i: int| 0 <= i < parts.len() ==> (#[trigger] parts[i]).len() == 0 {
            assert forall|i: int| 0 <= i < front.len() implies (#[trigger] front[i]).len()
                == 0 by {
                assert(front[i] == parts[i]);
            }
        }
    }
}

/// All the chunks of an answer in one row, record after record.
pub open spec fn all_chunks(records: Seq<Seq<Seq<u8>>>) -> Seq<Seq<u8>>
    decreases records.len(),
{
    if records.len() == 0 {
        Seq::empty()
    } else {
        all_chunks(records.drop_last()) + records.last()
    }
}

/// An answer holds at least as many chunks as its last record does.
proof fn lemma_all_chunks_len(records: Seq<Seq<Seq<u8>>>)
    ensures
        records.len() > 0 ==> all_chunks(records).len() >= records.last().len(),
{
}

/// Where no record is without chunks, the text of an answer is all its
/// chunks joined by single spaces, whichever record each belongs to.
pub proof fn lemma_message_text_joins_all_chunks(records: Seq<Seq<Seq<u8>>>)
    requires
        forall|r: int| 0 <= r < records.len() ==> (#[trigger] records[r]).len() > 0,
    ensures
        message_text(records) == joined(chunk_texts(all_chunks(records))),
    decreases records.len(),
{
    if records.len() > 0 {
        let front = records.drop_last();
        let last = records.last();
        assert forall|r: int| 0 <= r < front.len() implies (#[trigger] front[r]).len() > 0 by {
            assert(front[r] == records[r]);
        }
        lemma_message_text_joins_all_chunks(front);
        assert(record_texts(records).drop_last() =~= record_texts(front));
        assert(chunk_texts(all_chunks(front) + last) =~= chunk_texts(all_chunks(front))
            + chunk_texts(last));
        if front.len() == 0 {
            assert(all_chunks(front) + last =~= last);
        } else {
            lemma_all_chunks_len(front);
            assert(front.last().len() > 0);
            lemma_joined_concat(chunk_texts(all_chunks(front)), chunk_texts(last));
        }
    }
}

/// Whether every chunk of the answer is empty or malformed.
pub open spec fn blank(records: Seq<Seq<Seq<u8>>>) -> bool {
    forall|r: int, c: int|
        0 <= r < records.len() && 0 <= c < records[r].len() ==> {
            ||| (#[trigger] records[r][c]).len() == 0
            ||| !valid_utf8(records[r][c])
        }
}

/// An answer whose chunks are all empty or malformed still has a message,
/// made of the spaces between them, unless it holds one chunk at most.
pub proof fn lemma_blank_answer(records: Seq<Seq<Seq<u8>>>)
    requires
        blank(records),
    ensures
        message_of(records) is None <==> {
            ||| records.len() == 0
            ||| records.len() == 1 && records[0].len() <= 1
        },
{
    let texts = record_texts(records);
    lemma_joined_len(texts);
    if records.len() == 1 {
        let chunks = chunk_texts(records[0]);
        assert forall|c: int| 0 <= c < chunks.len() implies (#[trigger] chunks[c]).len() == 0 by {
            let chunk = records[0][c];
            assert(chunk.len() == 0 || !valid_utf8(chunk));
        }
        lemma_joined_len(chunks);
        assert(texts[0] == record_text(records[0]));
    }
}

/// Decodes one chunk, reading a malformed one as empty.
pub fn decode_chunk(chunk: &Vec<u8>) -> (text: String)
    ensures
        text@ == chunk_text(chunk@),
{
    let octets = chunk.clone();
    assert(octets@ =~= chunk@);
    match String::from_utf8(octets) {
        Ok(text) => text,
        Err(_) => String::new(),
    }
}

/// Joins the chunks of one record with single spaces.
pub fn join_record(record: &Vec<Vec<u8>>) -> (text: String)
    ensures
        text@ == record_text(record.deep_view()),
{
    let ghost parts = chunk_texts(record.deep_view());
    let mut text = String::new();
    let mut i: usize = 0;
    while i < record.len()
        invariant
            i <= record.len(),
            parts == chunk_texts(record.deep_view()),
            parts.len() == record.len(),
            text@ == joined(parts.take(i as int)),
        decreases record.len() - i,
    {
        let chunk = decode_chunk(&record[i]);
        proof {
            assert(record.deep_view()[i as int] =~= record[i as int]@);
            assert(parts.take(i + 1) =~= parts.take(i as int).push(chunk@));
            lemma_joined_push(parts.take(i as int), chunk@);
            reveal_strlit(" ");
            assert(" "@ =~= seq![' ']);
        }
        if i > 0 {
            text.append(" ");
        }
        text.append(chunk.as_str());
        i += 1;
    }
    assert(parts.take(i as int) =~= parts);
    text
}

/// Joins the records of an answer with single spaces; an answer whose text
/// is empty has no message.
pub fn message(records: &Vec<Vec<Vec<u8>>>) -> (message: Option<String>)
    ensures
        match message {
            Some(text) => message_of(records.deep_view()) == Some(text@),
            None => message_of(records.deep_view()) is None,
        },
{
    let ghost parts = record_texts(records.deep_view());
    let mut text = String::new();
    let mut i: usize = 0;
    while i < records.len()
        invariant
            i <= records.len(),
            parts == record_texts(records.deep_view()),
            parts.len() == records.len(),
            text@ == joined(parts.take(i as int)),
        decreases records.len() - i,
    {
        let record = join_record(&records[i]);
        proof {
            assert(records.deep_view()[i as int] =~~= records[i as int].deep_view());
            assert(parts.take(i + 1) =~= parts.take(i as int).push(record@));
            lemma_joined_push(parts.take(i as int), record@);
            reveal_strlit(" ");
            assert(" "@ =~= seq![' ']);
        }
        if i > 0 {
            text.append(" ");
        }
        text.append(record.as_str());
        i += 1;
    }
    assert(parts.take(i as int) =~= parts);
    if text.as_str().is_empty() {
        None
    } else {
        Some(text)
    }
}

} // verus!
