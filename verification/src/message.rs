//! A DNS message as far as the correlator reads it.

use vstd::prelude::*;

verus! {

/// The response code with which a server refuses to answer.
pub const RCODE_REFUSED: u8 = 5;

/// The header fields that are read.
#[derive(Clone, Copy, Debug, PartialEq, Eq, Structural)]
pub struct DnsHeader {
    /// The transaction id.
    pub id: u16,
    /// Whether the message is a query, not a response.
    pub is_query: bool,
    /// The four-bit response code.
    pub rcode: u8,
}

/// One entry of the question section.
#[derive(Clone, Debug)]
pub struct Question {
    /// The name asked for, labels joined by dots.
    pub qname: String,
}

/// The data of a resource record.
#[derive(Clone, Debug)]
pub enum RData {
    /// An IPv4 address, first octet in the most significant byte.
    A(u32),
    /// An IPv6 address, first octet in the most significant byte.
    AAAA(u128),
    /// The canonical name of an alias, labels joined by dots.
    CNAME(String),
    /// Any other kind of data.
    Other,
}

/// One entry of the answer section.
#[derive(Clone, Debug)]
pub struct Answer {
    /// The name that the record is about, labels joined by dots.
    pub qname: String,
    /// What the record holds.
    pub rdata: RData,
}

/// A parsed DNS message.
#[derive(Clone, Debug)]
pub struct DnsMessage {
    pub header: DnsHeader,
    pub questions: Vec<Question>,
    pub answers: Vec<Answer>,
}

/// The data of a resource record, as a mathematical value.
pub enum RDataView {
    A(u32),
    AAAA(u128),
    CNAME(Seq<char>),
    Other,
}

/// One answer, as a mathematical value.
pub struct AnswerView {
    pub qname: Seq<char>,
    pub rdata: RDataView,
}

/// A DNS message, as a mathematical value.
pub struct MessageView {
    pub header: DnsHeader,
    pub questions: Seq<Seq<char>>,
    pub answers: Seq<AnswerView>,
}

impl View for RData {
    type V = RDataView;

    open spec fn view(&self) -> RDataView {
        match *self {
            RData::A(address) => RDataView::A(address),
            RData::AAAA(address) => RDataView::AAAA(address),
            RData::CNAME(name) => RDataView::CNAME(name@),
            RData::Other => RDataView::Other,
        }
    }
}

impl View for Answer {
    type V = AnswerView;

    open spec fn view(&self) -> AnswerView {
        AnswerView { qname: self.qname@, rdata: self.rdata@ }
    }
}

impl View for DnsMessage {
    type V = MessageView;

    open spec fn view(&self) -> MessageView {
        MessageView {
            header: self.header,
            questions: Seq::new(self.questions@.len(), |i: int| self.questions@[i].qname@),
            answers: Seq::new(self.answers@.len(), |i: int| self.answers@[i]@),
        }
    }
}

/// The IPv4 addresses among the given answers, in order.
pub open spec fn a_addresses(answers: Seq<AnswerView>) -> Seq<u32>
    decreases answers.len(),
{
    if answers.len() == 0 {
        Seq::<u32>::empty()
    } else {
        match answers.last().rdata {
            RDataView::A(address) => a_addresses(answers.drop_last()).push(address),
            _ => a_addresses(answers.drop_last()),
        }
    }
}

impl DnsMessage {
    /// The names of the question section, in order.
    pub fn question_names(&self) -> (names: Vec<String>)
        ensures
            names@.len() == self@.questions.len(),
            forall|i: int| 0 <= i < names@.len() ==> (#[trigger] names@[i])@ == self@.questions[i],
    {
        let mut names: Vec<String> = Vec::new();
        let mut i: usize = 0;
        while i < self.questions.len()
            invariant
                i <= self.questions.len(),
                names@.len() == i,
                forall|j: int| 0 <= j < i ==> (#[trigger] names@[j])@ == self@.questions[j],
            decreases self.questions.len() - i,
        {
            names.push(self.questions[i].qname.clone());
            i += 1;
        }
        names
    }

    /// The IPv4 addresses of the answer section, in order.
    pub fn a_records(&self) -> (ips: Vec<u32>)
        ensures
            ips@ == a_addresses(self@.answers),
    {
        let mut ips: Vec<u32> = Vec::new();
        let mut i: usize = 0;
        assert(self@.answers.subrange(0, 0) =~= Seq::<AnswerView>::empty());
        while i < self.answers.len()
            invariant
                i <= self.answers.len(),
                ips@ == a_addresses(self@.answers.subrange(0, i as int)),
            decreases self.answers.len() - i,
        {
            let ghost next = self@.answers.subrange(0, i + 1);
            assert(next.drop_last() =~= self@.answers.subrange(0, i as int));
            assert(next.last() == self.answers@[i as int]@);
            match &self.answers[i].rdata {
                RData::A(address) => {
                    ips.push(*address);
                },
                _ => {},
            }
            i += 1;
        }
        assert(self@.answers.subrange(0, i as int) =~= self@.answers);
        ips
    }
}

} // verus!
