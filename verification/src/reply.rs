//! Building the DNS reply that answers a pending query from remembered
//! addresses.
//!
//! The message is written by the `simple_dns` crate. What is known of its
//! bytes is the header, the counts and the fixed fields of each record; how a
//! name is written (in full or as a pointer to an earlier one) is left to that
//! crate.

use vstd::prelude::*;
use simple_dns::PacketBuf;
use vstd::utf8::encode_utf8;
use crate::bytes::{be16, be16_bytes, be32_bytes};

verus! {

/// Seconds for which a reply built here may be kept by its receiver.
pub const REPLY_TTL: u32 = 10;

/// The most answers that the 16-bit answer count of a message can hold.
pub const MAX_ANSWERS: usize = 65535;

/// Makes the message buffer of the `simple_dns` crate known. Nothing inside
/// a buffer is visible; its bytes are spoken of through `packet_bytes`.
#[verifier::external_type_specification]
#[verifier::external_body]
pub struct ExPacketBuf(simple_dns::PacketBuf);

/// The bytes that a message buffer of `simple_dns` holds.
pub uninterp spec fn packet_bytes(buf: PacketBuf) -> Seq<u8>;

/// The header of a reply to a standard query, without error: the id, the
/// response flag alone, then the counts of questions and answers and two
/// counts of zero.
pub open spec fn reply_header(id: u16, questions: u16, answers: u16) -> Seq<u8> {
    be16_bytes(id) + seq![0x80u8, 0u8] + be16_bytes(questions) + be16_bytes(answers)
        + seq![0u8, 0u8, 0u8, 0u8]
}

/// What follows the name in a question for an IPv4 address: type A, class IN.
pub open spec fn question_tail() -> Seq<u8> {
    seq![0u8, 1u8, 0u8, 1u8]
}

/// What follows the name in an answer that holds an IPv4 address: type A,
/// class IN, the time to live, a data length of four and the address.
pub open spec fn answer_tail(ttl: u32, address: u32) -> Seq<u8> {
    seq![0u8, 1u8, 0u8, 1u8] + be32_bytes(ttl) + seq![0u8, 4u8] + be32_bytes(address)
}

/// A message after one more question: the question count raised by one, the
/// written name and the question's fixed fields at the end.
pub open spec fn with_question(before: Seq<u8>, name: Seq<u8>) -> Seq<u8> {
    before.subrange(0, 4) + be16_bytes((be16(before, 4) + 1) as u16) + before.subrange(
        6,
        before.len() as int,
    ) + name + question_tail()
}

/// A message after one more answer: the answer count raised by one, the
/// written name and the answer's fixed fields at the end.
pub open spec fn with_answer(before: Seq<u8>, name: Seq<u8>, ttl: u32, address: u32) -> Seq<u8> {
    before.subrange(0, 6) + be16_bytes((be16(before, 6) + 1) as u16) + before.subrange(
        8,
        before.len() as int,
    ) + name + answer_tail(ttl, address)
}

/// The answer section of a reply: one record for each address, in order,
/// each under its written name.
pub open spec fn answer_records(names: Seq<Seq<u8>>, ips: Seq<u32>) -> Seq<u8>
    decreases names.len(),
{
    if names.len() == 0 || ips.len() == 0 {
        Seq::<u8>::empty()
    } else {
        answer_records(names.drop_last(), ips.drop_last()) + names.last() + answer_tail(
            REPLY_TTL,
            ips.last(),
        )
    }
}

/// A whole reply: header, one question, one answer for each address.
pub open spec fn reply_message(
    id: u16,
    question_name: Seq<u8>,
    answer_names: Seq<Seq<u8>>,
    ips: Seq<u32>,
) -> Seq<u8> {
    reply_header(id, 1, ips.len() as u16) + question_name + question_tail() + answer_records(
        answer_names,
        ips,
    )
}

/// The most bytes that `domain` takes when it is written into a message:
/// its own bytes, where a length byte stands for each dot, one more length
/// byte and a terminator.
pub open spec fn name_limit(domain: Seq<char>) -> nat {
    encode_utf8(domain).len() + 2
}

/// None of the written names is longer than `limit`.
pub open spec fn names_within(names: Seq<Seq<u8>>, limit: nat) -> bool {
    forall|i: int| 0 <= i < names.len() ==> (#[trigger] names[i]).len() <= limit
}

/// `bytes` is a reply with the given id that asks for `domain` and answers
/// with the given addresses, in order, for some way of writing the name into
/// the question and into each answer.
pub open spec fn is_reply(bytes: Seq<u8>, id: u16, domain: Seq<char>, ips: Seq<u32>) -> bool {
    exists|question_name: Seq<u8>, answer_names: Seq<Seq<u8>>|
        question_name.len() <= name_limit(domain) && answer_names.len() == ips.len()
            && names_within(answer_names, name_limit(domain)) && bytes == #[trigger] reply_message(
            id,
            question_name,
            answer_names,
            ips,
        )
}

/// Calls `PacketBuf::new` with the header that `PacketHeader::new_reply`
/// makes for a standard query, name compression on. The buffer then holds
/// that header alone: twelve bytes, all counts zero.
#[verifier::external_body]
fn new_reply_buffer(id: u16) -> (buf: PacketBuf)
    ensures
        packet_bytes(buf) == reply_header(id, 0, 0),
{
    PacketBuf::new(simple_dns::PacketHeader::new_reply(id, simple_dns::OPCODE::StandardQuery), true)
}

/// Calls `PacketBuf::add_question` with a question for the IPv4 address of
/// `domain`. It is refused, and the buffer left alone, when the buffer already
/// holds a record of a later section; else the name and the fixed fields are
/// appended and the question count goes up by one. The name is written label
/// by label, or cut short by a two-byte pointer, so it takes no more than
/// `name_limit`. The count must not be at its limit.
#[verifier::external_body]
fn add_address_question(buf: &mut PacketBuf, domain: &str) -> (ok: bool)
    requires
        packet_bytes(*old(buf)).len() >= 12,
        be16(packet_bytes(*old(buf)), 4) < 65535,
    ensures
        ok == (be16(packet_bytes(*old(buf)), 6) == 0 && be16(packet_bytes(*old(buf)), 8) == 0
            && be16(packet_bytes(*old(buf)), 10) == 0),
        !ok ==> packet_bytes(*final(buf)) == packet_bytes(*old(buf)),
        ok ==> exists|name: Seq<u8>|
            name.len() <= name_limit(domain@) && packet_bytes(*final(buf))
                == #[trigger] with_question(packet_bytes(*old(buf)), name),
{
    let qname = simple_dns::Name::new_unchecked(domain);
    let qtype = simple_dns::QTYPE::TYPE(simple_dns::TYPE::A);
    let qclass = simple_dns::QCLASS::CLASS(simple_dns::CLASS::IN);
    buf.add_question(&simple_dns::Question::new(qname, qtype, qclass, false)).is_ok()
}

/// Calls `PacketBuf::add_answer` with an address record for `domain`. It is
/// refused, and the buffer left alone, when the buffer already holds a record
/// of a later section; else the name and the fixed fields are appended and the
/// answer count goes up by one. The name takes no more than `name_limit`. The
/// count must not be at its limit.
#[verifier::external_body]
fn add_address_answer(buf: &mut PacketBuf, domain: &str, ttl: u32, address: u32) -> (ok: bool)
    requires
        packet_bytes(*old(buf)).len() >= 12,
        be16(packet_bytes(*old(buf)), 6) < 65535,
    ensures
        ok == (be16(packet_bytes(*old(buf)), 8) == 0 && be16(packet_bytes(*old(buf)), 10) == 0),
        !ok ==> packet_bytes(*final(buf)) == packet_bytes(*old(buf)),
        ok ==> exists|name: Seq<u8>|
            name.len() <= name_limit(domain@) && packet_bytes(*final(buf))
                == #[trigger] with_answer(packet_bytes(*old(buf)), name, ttl, address),
{
    let name = simple_dns::Name::new_unchecked(domain);
    let rdata = simple_dns::rdata::RData::A(simple_dns::rdata::A { address });
    buf.add_answer(&simple_dns::ResourceRecord::new(name, simple_dns::CLASS::IN, ttl, rdata)).is_ok()
}

/// Copies the bytes out of a message buffer of `simple_dns`.
#[verifier::external_body]
fn buffer_bytes(buf: &PacketBuf) -> (bytes: Vec<u8>)
    ensures
        bytes@ == packet_bytes(*buf),
{
    buf.to_vec()
}

proof fn lemma_first_question(id: u16, name: Seq<u8>)
    ensures
        with_question(reply_header(id, 0, 0), name) == reply_message(
            id,
            name,
            Seq::<Seq<u8>>::empty(),
            Seq::<u32>::empty(),
        ),
{
    let before = reply_header(id, 0, 0);
    assert(before.len() == 12);
    assert(be16(before, 4) == 0);
    assert(with_question(before, name) =~= reply_message(
        id,
        name,
        Seq::<Seq<u8>>::empty(),
        Seq::<u32>::empty(),
    ));
}

proof fn lemma_message_counts(
    id: u16,
    question_name: Seq<u8>,
    names: Seq<Seq<u8>>,
    ips: Seq<u32>,
)
    requires
        ips.len() <= MAX_ANSWERS,
    ensures
        reply_message(id, question_name, names, ips).len() >= 12,
        reply_message(id, question_name, names, ips).subrange(0, 12) == reply_header(
            id,
            1,
            ips.len() as u16,
        ),
        be16(reply_message(id, question_name, names, ips), 6) == ips.len(),
        be16(reply_message(id, question_name, names, ips), 8) == 0,
        be16(reply_message(id, question_name, names, ips), 10) == 0,
{
    let message = reply_message(id, question_name, names, ips);
    let count = ips.len() as u16;
    assert(message.subrange(0, 12) =~= reply_header(id, 1, count));
    assert(message[6] == be16_bytes(count)[0]);
    assert(message[7] == be16_bytes(count)[1]);
}

proof fn lemma_next_answer(
    id: u16,
    question_name: Seq<u8>,
    names: Seq<Seq<u8>>,
    ips: Seq<u32>,
    name: Seq<u8>,
    address: u32,
)
    requires
        names.len() == ips.len(),
        ips.len() < MAX_ANSWERS,
    ensures
        with_answer(reply_message(id, question_name, names, ips), name, REPLY_TTL, address)
            == reply_message(id, question_name, names.push(name), ips.push(address)),
{
    let before = reply_message(id, question_name, names, ips);
    lemma_message_counts(id, question_name, names, ips);
    assert(names.push(name).drop_last() =~= names);
    assert(ips.push(address).drop_last() =~= ips);
    assert(answer_records(names.push(name), ips.push(address)) == answer_records(names, ips)
        + name + answer_tail(REPLY_TTL, address));
    assert(with_answer(before, name, REPLY_TTL, address) =~= reply_message(
        id,
        question_name,
        names.push(name),
        ips.push(address),
    ));
}

/// A reply starts with its id, says that it is a response to a standard
/// query without error, and counts one question and one answer for each
/// address.
pub proof fn lemma_reply_starts_with_id(bytes: Seq<u8>, id: u16, domain: Seq<char>, ips: Seq<u32>)
    requires
        is_reply(bytes, id, domain, ips),
    ensures
        bytes.len() >= 12,
        be16(bytes, 0) == id,
        bytes[2] == 0x80,
        bytes[3] == 0,
        be16(bytes, 4) == 1,
        ips.len() <= MAX_ANSWERS ==> be16(bytes, 6) == ips.len(),
        be16(bytes, 8) == 0,
        be16(bytes, 10) == 0,
{
    let (question_name, answer_names) = choose|question_name: Seq<u8>, answer_names: Seq<Seq<u8>>|
        question_name.len() <= name_limit(domain) && answer_names.len() == ips.len()
            && names_within(answer_names, name_limit(domain)) && bytes == #[trigger] reply_message(
            id,
            question_name,
            answer_names,
            ips,
        );
    let header = reply_header(id, 1, ips.len() as u16);
    assert(header.len() == 12);
    assert(bytes.subrange(0, 12) =~= header);
    assert forall|i: int| 0 <= i < 12 implies bytes[i] == header[i] by {
        assert(bytes.subrange(0, 12)[i] == bytes[i]);
    }
}

proof fn lemma_answer_records_len(names: Seq<Seq<u8>>, ips: Seq<u32>, limit: nat)
    requires
        names.len() == ips.len(),
        names_within(names, limit),
    ensures
        answer_records(names, ips).len() <= ips.len() * (limit + 14),
    decreases names.len(),
{
    if names.len() > 0 {
        assert(names_within(names.drop_last(), limit)) by {
            assert forall|i: int| 0 <= i < names.drop_last().len() implies (
            #[trigger] names.drop_last()[i]).len() <= limit by {
                assert(names.drop_last()[i] == names[i]);
            }
        }
        lemma_answer_records_len(names.drop_last(), ips.drop_last(), limit);
        assert(names.last() == names[names.len() - 1]);
        assert((ips.len() - 1) * (limit + 14) + (limit + 14) == ips.len() * (limit + 14))
            by (nonlinear_arith);
    }
}

/// A reply is no longer than its header, its question and its answers can
/// be with names of the greatest length.
pub proof fn lemma_reply_len(bytes: Seq<u8>, id: u16, domain: Seq<char>, ips: Seq<u32>)
    requires
        is_reply(bytes, id, domain, ips),
    ensures
        bytes.len() <= 16 + name_limit(domain) + ips.len() * (name_limit(domain) + 14),
{
    let (question_name, answer_names) = choose|question_name: Seq<u8>, answer_names: Seq<Seq<u8>>|
        question_name.len() <= name_limit(domain) && answer_names.len() == ips.len()
            && names_within(answer_names, name_limit(domain)) && bytes == #[trigger] reply_message(
            id,
            question_name,
            answer_names,
            ips,
        );
    lemma_answer_records_len(answer_names, ips, name_limit(domain));
}

/// Builds the reply that answers a query for `domain` with the given
/// addresses: a response to a standard query without error, the one question
/// repeated, and one address record for each address, in order, each with
/// a time to live of `REPLY_TTL`. `None` when there are more addresses than
/// a message can count.
pub fn build_dns_reply(id: u16, domain: &str, ips: &[u32]) -> (r: Option<Vec<u8>>)
    ensures
        ips.len() > MAX_ANSWERS ==> r is None,
        ips.len() <= MAX_ANSWERS ==> r is Some && is_reply(r.unwrap()@, id, domain@, ips@),
{
    if ips.len() > MAX_ANSWERS {
        return None;
    }
    let mut buf = new_reply_buffer(id);
    assert(be16(reply_header(id, 0, 0), 4) == 0 && be16(reply_header(id, 0, 0), 6) == 0 && be16(
        reply_header(id, 0, 0),
        8,
    ) == 0 && be16(reply_header(id, 0, 0), 10) == 0);
    if !add_address_question(&mut buf, domain) {
        return None;
    }
    let ghost question_name: Seq<u8> = choose|name: Seq<u8>|
        name.len() <= name_limit(domain@) && packet_bytes(buf) == #[trigger] with_question(
            reply_header(id, 0, 0),
            name,
        );
    let ghost mut names: Seq<Seq<u8>> = Seq::empty();
    proof {
        lemma_first_question(id, question_name);
        assert(ips@.subrange(0, 0) =~= Seq::<u32>::empty());
    }
    let mut i: usize = 0;
    while i < ips.len()
        invariant
            i <= ips.len() <= MAX_ANSWERS,
            names.len() == i,
            question_name.len() <= name_limit(domain@),
            names_within(names, name_limit(domain@)),
            packet_bytes(buf) == reply_message(id, question_name, names, ips@.subrange(0, i as int)),
        decreases ips.len() - i,
    {
        let ghost before = packet_bytes(buf);
        let ghost done = ips@.subrange(0, i as int);
        proof {
            lemma_message_counts(id, question_name, names, done);
        }
        if !add_address_answer(&mut buf, domain, REPLY_TTL, ips[i]) {
            return None;
        }
        proof {
            let name = choose|name: Seq<u8>|
                name.len() <= name_limit(domain@) && packet_bytes(buf) == #[trigger] with_answer(
                    before,
                    name,
                    REPLY_TTL,
                    ips[i as int],
                );
            lemma_next_answer(id, question_name, names, done, name, ips[i as int]);
            names = names.push(name);
            assert(done.push(ips[i as int]) =~= ips@.subrange(0, i + 1));
        }
        i += 1;
    }
    assert(ips@.subrange(0, i as int) =~= ips@);
    Some(buffer_bytes(&buf))
}

} // verus!
