//! Reading a DNS message from the bytes of a datagram.
//!
//! Only what the correlator uses is kept: the id, the direction and the
//! response code of the header, the names of the questions, and the answers
//! with their name and data. The records of the two last sections are walked
//! and dropped. A message with a field that lies beyond its end, with a name
//! that is too long, loops or is no UTF-8, or with an address record of the
//! wrong size fails as a whole.

use vstd::prelude::*;
use vstd::slice::slice_subrange;
use vstd::utf8::{decode_utf8, valid_utf8};
use crate::bytes::{be16, be32, push_all, read_be16, read_be32};
use crate::message::{Answer, AnswerView, DnsHeader, DnsMessage, MessageView, Question, RData, RDataView};

verus! {

/// The most bytes that the labels of one name take, length bytes included.
pub const MAX_NAME_LEN: usize = 255;

/// Record type of an IPv4 address.
pub const TYPE_A: u16 = 1;

/// Record type of a canonical name.
pub const TYPE_CNAME: u16 = 5;

/// Record type of an IPv6 address.
pub const TYPE_AAAA: u16 = 28;

/// The 128-bit big-endian number that starts at `at`.
pub open spec fn be128(s: Seq<u8>, at: int) -> int {
    ((be32(s, at) * 0x1_0000_0000 + be32(s, at + 4)) * 0x1_0000_0000 + be32(s, at + 8))
        * 0x1_0000_0000 + be32(s, at + 12)
}

/// The labels of the name that starts at `pos`, joined by dots, with
/// compression pointers followed. `budget` bounds the bytes that the labels
/// may still take; a pointer must point backwards.
pub open spec fn name_at(data: Seq<u8>, pos: int, budget: nat) -> Option<Seq<u8>>
    decreases budget, pos,
{
    if pos < 0 || pos >= data.len() {
        None
    } else if data[pos] == 0 {
        Some(Seq::<u8>::empty())
    } else if data[pos] >= 192 {
        if pos + 1 >= data.len() {
            None
        } else {
            let target = (data[pos] - 192) * 256 + data[pos + 1];
            if target >= pos {
                None
            } else {
                name_at(data, target, budget)
            }
        }
    } else if data[pos] >= 64 || pos + 1 + data[pos] > data.len() || 1 + data[pos] > budget {
        None
    } else {
        let len = data[pos] as int;
        match name_at(data, pos + 1 + len, (budget - 1 - len) as nat) {
            None => None,
            Some(rest) => Some(
                if rest.len() == 0 {
                    data.subrange(pos + 1, pos + 1 + len)
                } else {
                    data.subrange(pos + 1, pos + 1 + len) + seq![46u8] + rest
                },
            ),
        }
    }
}

/// Where the fields after the name that starts at `pos` begin: behind its
/// terminator, or behind its first pointer.
pub open spec fn name_end(data: Seq<u8>, pos: int) -> Option<int>
    decreases data.len() - pos,
{
    if pos < 0 || pos >= data.len() {
        None
    } else if data[pos] == 0 {
        Some(pos + 1)
    } else if data[pos] >= 192 {
        if pos + 1 >= data.len() {
            None
        } else {
            Some(pos + 2)
        }
    } else if data[pos] >= 64 || pos + 1 + data[pos] > data.len() {
        None
    } else {
        name_end(data, pos + 1 + data[pos])
    }
}

/// The name that starts at `pos` as text, and where the fields after it
/// begin.
pub open spec fn text_at(data: Seq<u8>, pos: int) -> Option<(Seq<char>, int)> {
    match (name_at(data, pos, MAX_NAME_LEN as nat), name_end(data, pos)) {
        (Some(dotted), Some(end)) => if valid_utf8(dotted) {
            Some((decode_utf8(dotted), end))
        } else {
            None
        },
        _ => None,
    }
}

/// The question that starts at `pos`, and where the next item begins.
pub open spec fn question_at(data: Seq<u8>, pos: int) -> Option<(Seq<char>, int)> {
    match text_at(data, pos) {
        Some((qname, end)) => if end + 4 <= data.len() {
            Some((qname, end + 4))
        } else {
            None
        },
        None => None,
    }
}

/// The data of a record of the given type whose data take the `len` bytes
/// from `at`.
pub open spec fn rdata_at(data: Seq<u8>, rtype: int, at: int, len: int) -> Option<RDataView> {
    if rtype == TYPE_A {
        if len == 4 {
            Some(RDataView::A(be32(data, at) as u32))
        } else {
            None
        }
    } else if rtype == TYPE_AAAA {
        if len == 16 {
            Some(RDataView::AAAA(be128(data, at) as u128))
        } else {
            None
        }
    } else if rtype == TYPE_CNAME {
        match text_at(data, at) {
            Some((name, _)) => Some(RDataView::CNAME(name)),
            None => None,
        }
    } else {
        Some(RDataView::Other)
    }
}

/// The resource record that starts at `pos`, and where the next item
/// begins.
pub open spec fn record_at(data: Seq<u8>, pos: int) -> Option<(AnswerView, int)> {
    match text_at(data, pos) {
        Some((qname, end)) => if end + 10 <= data.len() && end + 10 + be16(data, end + 8)
            <= data.len() {
            match rdata_at(data, be16(data, end), end + 10, be16(data, end + 8)) {
                Some(rdata) => Some(
                    (AnswerView { qname, rdata }, end + 10 + be16(data, end + 8)),
                ),
                None => None,
            }
        } else {
            None
        },
        None => None,
    }
}

/// The first `count` questions from `start` on, and where the next item
/// begins.
pub open spec fn questions_upto(data: Seq<u8>, start: int, count: nat) -> Option<
    (Seq<Seq<char>>, int),
>
    decreases count,
{
    if count == 0 {
        Some((Seq::<Seq<char>>::empty(), start))
    } else {
        match questions_upto(data, start, (count - 1) as nat) {
            Some((items, pos)) => match question_at(data, pos) {
                Some((item, next)) => Some((items.push(item), next)),
                None => None,
            },
            None => None,
        }
    }
}

/// The first `count` records from `start` on, and where the next item
/// begins.
pub open spec fn records_upto(data: Seq<u8>, start: int, count: nat) -> Option<
    (Seq<AnswerView>, int),
>
    decreases count,
{
    if count == 0 {
        Some((Seq::<AnswerView>::empty(), start))
    } else {
        match records_upto(data, start, (count - 1) as nat) {
            Some((items, pos)) => match record_at(data, pos) {
                Some((item, next)) => Some((items.push(item), next)),
                None => None,
            },
            None => None,
        }
    }
}

/// The header fields of a message of at least twelve bytes.
pub open spec fn header_of(data: Seq<u8>) -> DnsHeader {
    DnsHeader { id: be16(data, 0) as u16, is_query: data[2] < 128, rcode: data[3] % 16 }
}

/// What a datagram parses to: the header, the questions and the answers,
/// provided that all four sections can be walked and the reserved header bit
/// is clear.
pub open spec fn parsed(data: Seq<u8>) -> Option<MessageView> {
    if data.len() < 12 || data[3] / 64 % 2 != 0 {
        None
    } else {
        match questions_upto(data, 12, be16(data, 4) as nat) {
            Some((questions, answers_at)) => match records_upto(data, answers_at, be16(data, 6) as nat) {
                Some((answers, authorities_at)) => match records_upto(data, authorities_at, be16(data, 8) as nat) {
                    Some((_, additionals_at)) => match records_upto(data, additionals_at, be16(data, 10) as nat) {
                        Some(_) => Some(MessageView { header: header_of(data), questions, answers }),
                        None => None,
                    },
                    None => None,
                },
                None => None,
            },
            None => None,
        }
    }
}

/// Calls `String::from_utf8`: the text that the bytes encode, if they are
/// valid UTF-8.
#[verifier::external_body]
fn text_of(bytes: Vec<u8>) -> (r: Option<String>)
    ensures
        r is Some <==> valid_utf8(bytes@),
        r is Some ==> r.unwrap()@ == decode_utf8(bytes@),
{
    String::from_utf8(bytes).ok()
}

fn read_name(data: &[u8], pos: usize, budget: usize) -> (r: Option<Vec<u8>>)
    ensures
        r is Some <==> name_at(data@, pos as int, budget as nat) is Some,
        r is Some ==> r.unwrap()@ == name_at(data@, pos as int, budget as nat).unwrap(),
    decreases budget, pos,
{
    if pos >= data.len() {
        return None;
    }
    let first: u8 = data[pos];
    if first == 0 {
        return Some(Vec::new());
    }
    if first >= 192 {
        if data.len() - pos < 2 {
            return None;
        }
        let target: usize = (first - 192) as usize * 256 + data[pos + 1] as usize;
        if target >= pos {
            return None;
        }
        return read_name(data, target, budget);
    }
    let len: usize = first as usize;
    if first >= 64 || data.len() - pos - 1 < len || budget < 1 + len {
        return None;
    }
    match read_name(data, pos + 1 + len, budget - 1 - len) {
        None => None,
        Some(rest) => {
            let mut out: Vec<u8> = Vec::new();
            push_all(&mut out, slice_subrange(data, pos + 1, pos + 1 + len));
            if rest.len() > 0 {
                out.push(46);
                push_all(&mut out, rest.as_slice());
            }
            assert(out@ =~= name_at(data@, pos as int, budget as nat).unwrap());
            Some(out)
        },
    }
}

fn skip_name(data: &[u8], pos: usize) -> (r: Option<usize>)
    ensures
        r is Some <==> name_end(data@, pos as int) is Some,
        r is Some ==> r.unwrap() == name_end(data@, pos as int).unwrap() && r.unwrap()
            <= data.len(),
{
    let mut cur: usize = pos;
    loop
        invariant
            name_end(data@, pos as int) == name_end(data@, cur as int),
        decreases data.len() - cur,
    {
        if cur >= data.len() {
            return None;
        }
        let first: u8 = data[cur];
        if first == 0 {
            return Some(cur + 1);
        }
        if first >= 192 {
            if data.len() - cur < 2 {
                return None;
            }
            return Some(cur + 2);
        }
        if first >= 64 {
            return None;
        }
        if data.len() - cur - 1 < first as usize {
            return None;
        }
        cur = cur + 1 + first as usize;
    }
}

fn read_text(data: &[u8], pos: usize) -> (r: Option<(String, usize)>)
    ensures
        r is Some <==> text_at(data@, pos as int) is Some,
        r is Some ==> r.unwrap().0@ == text_at(data@, pos as int).unwrap().0 && r.unwrap().1
            == text_at(data@, pos as int).unwrap().1 && r.unwrap().1 <= data.len(),
{
    let dotted = match read_name(data, pos, MAX_NAME_LEN) {
        Some(dotted) => dotted,
        None => {
            return None;
        },
    };
    let end = match skip_name(data, pos) {
        Some(end) => end,
        None => {
            return None;
        },
    };
    match text_of(dotted) {
        Some(text) => Some((text, end)),
        None => None,
    }
}

fn read_be128(data: &[u8], at: usize) -> (v: u128)
    requires
        at + 16 <= data.len(),
    ensures
        v == be128(data@, at as int),
{
    let a: u128 = read_be32(data, at) as u128;
    let b: u128 = read_be32(data, at + 4) as u128;
    let c: u128 = read_be32(data, at + 8) as u128;
    let d: u128 = read_be32(data, at + 12) as u128;
    ((a * 0x1_0000_0000 + b) * 0x1_0000_0000 + c) * 0x1_0000_0000 + d
}

fn read_rdata(data: &[u8], rtype: u16, at: usize, len: usize) -> (r: Option<RData>)
    requires
        at + len <= data.len(),
    ensures
        r is Some <==> rdata_at(data@, rtype as int, at as int, len as int) is Some,
        r is Some ==> r.unwrap()@ == rdata_at(data@, rtype as int, at as int, len as int).unwrap(),
{
    if rtype == TYPE_A {
        if len == 4 {
            Some(RData::A(read_be32(data, at)))
        } else {
            None
        }
    } else if rtype == TYPE_AAAA {
        if len == 16 {
            Some(RData::AAAA(read_be128(data, at)))
        } else {
            None
        }
    } else if rtype == TYPE_CNAME {
        match read_text(data, at) {
            Some((name, _)) => Some(RData::CNAME(name)),
            None => None,
        }
    } else {
        Some(RData::Other)
    }
}

fn read_question(data: &[u8], pos: usize) -> (r: Option<(Question, usize)>)
    ensures
        r is Some <==> question_at(data@, pos as int) is Some,
        r is Some ==> r.unwrap().0.qname@ == question_at(data@, pos as int).unwrap().0
            && r.unwrap().1 == question_at(data@, pos as int).unwrap().1,
{
    match read_text(data, pos) {
        Some((qname, end)) => {
            if data.len() - end < 4 {
                None
            } else {
                Some((Question { qname }, end + 4))
            }
        },
        None => None,
    }
}

fn read_record(data: &[u8], pos: usize) -> (r: Option<(Answer, usize)>)
    ensures
        r is Some <==> record_at(data@, pos as int) is Some,
        r is Some ==> r.unwrap().0@ == record_at(data@, pos as int).unwrap().0 && r.unwrap().1
            == record_at(data@, pos as int).unwrap().1,
{
    match read_text(data, pos) {
        Some((qname, end)) => {
            if data.len() - end < 10 {
                return None;
            }
            let rtype: u16 = read_be16(data, end);
            let len: usize = read_be16(data, end + 8) as usize;
            if data.len() - end - 10 < len {
                return None;
            }
            match read_rdata(data, rtype, end + 10, len) {
                Some(rdata) => Some((Answer { qname, rdata }, end + 10 + len)),
                None => None,
            }
        },
        None => None,
    }
}

proof fn lemma_questions_stay_failed(data: Seq<u8>, start: int, failed: nat, count: nat)
    requires
        failed <= count,
        questions_upto(data, start, failed) is None,
    ensures
        questions_upto(data, start, count) is None,
    decreases count,
{
    if failed < count {
        lemma_questions_stay_failed(data, start, failed, (count - 1) as nat);
    }
}

proof fn lemma_records_stay_failed(data: Seq<u8>, start: int, failed: nat, count: nat)
    requires
        failed <= count,
        records_upto(data, start, failed) is None,
    ensures
        records_upto(data, start, count) is None,
    decreases count,
{
    if failed < count {
        lemma_records_stay_failed(data, start, failed, (count - 1) as nat);
    }
}

/// The names of a list of questions.
pub open spec fn questions_view(questions: Seq<Question>) -> Seq<Seq<char>> {
    Seq::new(questions.len(), |i: int| questions[i].qname@)
}

/// The answers of a list, as mathematical values.
pub open spec fn answers_view(answers: Seq<Answer>) -> Seq<AnswerView> {
    Seq::new(answers.len(), |i: int| answers[i]@)
}

fn read_questions(data: &[u8], start: usize, count: u16) -> (r: Option<(Vec<Question>, usize)>)
    ensures
        r is Some <==> questions_upto(data@, start as int, count as nat) is Some,
        r is Some ==> questions_view(r.unwrap().0@) == questions_upto(
            data@,
            start as int,
            count as nat,
        ).unwrap().0 && r.unwrap().1 == questions_upto(data@, start as int, count as nat).unwrap().1,
{
    let mut items: Vec<Question> = Vec::new();
    let mut pos: usize = start;
    let mut i: u16 = 0;
    assert(questions_view(items@) =~= Seq::<Seq<char>>::empty());
    while i < count
        invariant
            i <= count,
            questions_upto(data@, start as int, i as nat) == Some(
                (questions_view(items@), pos as int),
            ),
        decreases count - i,
    {
        match read_question(data, pos) {
            Some((item, next)) => {
                let ghost before = questions_view(items@);
                items.push(item);
                assert(questions_view(items@) =~= before.push(item.qname@));
                pos = next;
                i += 1;
            },
            None => {
                proof {
                    lemma_questions_stay_failed(data@, start as int, (i + 1) as nat, count as nat);
                }
                return None;
            },
        }
    }
    Some((items, pos))
}

fn read_records(data: &[u8], start: usize, count: u16) -> (r: Option<(Vec<Answer>, usize)>)
    ensures
        r is Some <==> records_upto(data@, start as int, count as nat) is Some,
        r is Some ==> answers_view(r.unwrap().0@) == records_upto(
            data@,
            start as int,
            count as nat,
        ).unwrap().0 && r.unwrap().1 == records_upto(data@, start as int, count as nat).unwrap().1,
{
    let mut items: Vec<Answer> = Vec::new();
    let mut pos: usize = start;
    let mut i: u16 = 0;
    assert(answers_view(items@) =~= Seq::<AnswerView>::empty());
    while i < count
        invariant
            i <= count,
            records_upto(data@, start as int, i as nat) == Some((answers_view(items@), pos as int)),
        decreases count - i,
    {
        match read_record(data, pos) {
            Some((item, next)) => {
                let ghost before = answers_view(items@);
                items.push(item);
                assert(answers_view(items@) =~= before.push(item@));
                pos = next;
                i += 1;
            },
            None => {
                proof {
                    lemma_records_stay_failed(data@, start as int, (i + 1) as nat, count as nat);
                }
                return None;
            },
        }
    }
    Some((items, pos))
}

/// Parses the DNS message of a datagram. `None` for a malformed one.
pub fn parse_dns_message(data: &[u8]) -> (r: Option<DnsMessage>)
    ensures
        r is Some <==> parsed(data@) is Some,
        r is Some ==> r.unwrap()@ == parsed(data@).unwrap(),
{
    if data.len() < 12 || data[3] / 64 % 2 != 0 {
        return None;
    }
    let header = DnsHeader {
        id: read_be16(data, 0),
        is_query: data[2] < 128,
        rcode: data[3] % 16,
    };
    let (questions, answers_at) = match read_questions(data, 12, read_be16(data, 4)) {
        Some(section) => section,
        None => {
            return None;
        },
    };
    let (answers, authorities_at) = match read_records(data, answers_at, read_be16(data, 6)) {
        Some(section) => section,
        None => {
            return None;
        },
    };
    let additionals_at = match read_records(data, authorities_at, read_be16(data, 8)) {
        Some(section) => section.1,
        None => {
            return None;
        },
    };
    if read_records(data, additionals_at, read_be16(data, 10)).is_none() {
        return None;
    }
    let msg = DnsMessage { header, questions, answers };
    assert(msg@.questions =~= questions_view(questions@));
    assert(msg@.answers =~= answers_view(answers@));
    Some(msg)
}

/// A question section that can be walked holds as many questions as were
/// asked for.
pub proof fn lemma_questions_count(data: Seq<u8>, start: int, count: nat)
    requires
        questions_upto(data, start, count) is Some,
    ensures
        questions_upto(data, start, count).unwrap().0.len() == count,
    decreases count,
{
    if count > 0 {
        lemma_questions_count(data, start, (count - 1) as nat);
    }
}

/// A record section that can be walked holds as many records as were asked
/// for.
pub proof fn lemma_records_count(data: Seq<u8>, start: int, count: nat)
    requires
        records_upto(data, start, count) is Some,
    ensures
        records_upto(data, start, count).unwrap().0.len() == count,
    decreases count,
{
    if count > 0 {
        lemma_records_count(data, start, (count - 1) as nat);
    }
}

/// A parsed message has the header fields of its first bytes, and as many
/// questions and answers as its header counts.
pub proof fn lemma_parsed_follows_header(data: Seq<u8>)
    requires
        parsed(data) is Some,
    ensures
        parsed(data).unwrap().header == header_of(data),
        parsed(data).unwrap().questions.len() == be16(data, 4),
        parsed(data).unwrap().answers.len() == be16(data, 6),
{
    lemma_questions_count(data, 12, be16(data, 4) as nat);
    let answers_at = questions_upto(data, 12, be16(data, 4) as nat).unwrap().1;
    lemma_records_count(data, answers_at, be16(data, 6) as nat);
}

} // verus!
