use vstd::prelude::*;
use crate::assoc::{
    assoc_map, lemma_assoc_absent, lemma_assoc_last_match, lemma_assoc_present, lemma_assoc_push,
};
use crate::ast::BinaryOperator;

verus! {

/// Bit that holds the sign in a binary64 pattern.
pub const SIGN_BIT: u64 = 0x8000_0000_0000_0000u64;

/// Whether a binary64 pattern is positive or negative zero: all bits but
/// the sign are clear.
pub open spec fn is_zero_bits(bits: u64) -> bool {
    bits == 0 || bits == SIGN_BIT
}

/// Tests a binary64 pattern for zero of either sign.
pub fn bits_are_zero(bits: u64) -> (zero: bool)
    ensures
        zero == is_zero_bits(bits),
{
    bits == 0 || bits == SIGN_BIT
}

/// The pattern of the negated number: the sign bit flipped, all other bits
/// kept.
pub open spec fn negate_bits(bits: u64) -> u64 {
    bits ^ SIGN_BIT
}

/// Negates a binary64 pattern.
pub fn negated(bits: u64) -> (result: u64)
    ensures
        result == negate_bits(bits),
{
    bits ^ SIGN_BIT
}

/// A piece of floating-point work that the interpreter hands to its host.
/// Floating-point numbers travel as binary64 bit patterns.
#[derive(Debug, PartialEq, Eq)]
pub enum FloatRequest {
    /// The number that a literal's text denotes.
    Literal(String),
    /// The number nearest to an integer.
    FromInteger(i64),
    /// An operator applied to two numbers.
    Binary { op: BinaryOperator, left: u64, right: u64 },
}

/// The mathematical value of a [`FloatRequest`].
pub enum FloatRequestModel {
    Literal(Seq<char>),
    FromInteger(i64),
    Binary { op: BinaryOperator, left: u64, right: u64 },
}

impl View for FloatRequest {
    type V = FloatRequestModel;

    open spec fn view(&self) -> FloatRequestModel {
        match self {
            FloatRequest::Literal(text) => FloatRequestModel::Literal(text@),
            FloatRequest::FromInteger(n) => FloatRequestModel::FromInteger(*n),
            FloatRequest::Binary { op, left, right } => FloatRequestModel::Binary {
                op: *op,
                left: *left,
                right: *right,
            },
        }
    }
}

impl Clone for FloatRequest {
    fn clone(&self) -> (copy: FloatRequest)
        ensures
            copy@ == self@,
    {
        match self {
            FloatRequest::Literal(text) => FloatRequest::Literal(text.clone()),
            FloatRequest::FromInteger(n) => FloatRequest::FromInteger(*n),
            FloatRequest::Binary { op, left, right } => FloatRequest::Binary {
                op: *op,
                left: *left,
                right: *right,
            },
        }
    }
}

impl FloatRequest {
    /// Whether two requests ask for the same work.
    pub fn same_as(&self, other: &FloatRequest) -> (same: bool)
        ensures
            same == (self@ == other@),
    {
        match (self, other) {
            (FloatRequest::Literal(a), FloatRequest::Literal(b)) => {
                let same = *a == *b;
                same
            },
            (FloatRequest::FromInteger(a), FloatRequest::FromInteger(b)) => *a == *b,
            (
                FloatRequest::Binary { op: op_a, left: left_a, right: right_a },
                FloatRequest::Binary { op: op_b, left: left_b, right: right_b },
            ) => *op_a == *op_b && *left_a == *left_b && *right_a == *right_b,
            _ => false,
        }
    }
}

/// One answered request.
#[derive(Debug)]
pub struct FloatFact {
    pub request: FloatRequest,
    pub bits: u64,
}

/// The pairs that a list of facts stands for.
pub open spec fn facts_pairs(facts: Seq<FloatFact>) -> Seq<(FloatRequestModel, u64)> {
    Seq::new(facts.len(), |i: int| (facts[i].request@, facts[i].bits))
}

/// The answers that the host has given so far. The first answer to a
/// request stands; a later one to the same request changes nothing.
#[derive(Debug)]
pub struct FloatTable {
    facts: Vec<FloatFact>,
}

/// Whether no two facts answer the same request.
pub open spec fn requests_distinct(facts: Seq<FloatFact>) -> bool {
    forall|i: int, j: int|
        0 <= i < j < facts.len() ==> (#[trigger] facts[i]).request@ != (
        #[trigger] facts[j]).request@
}

impl FloatTable {
    /// A request has at most one answer.
    #[verifier::type_invariant]
    closed spec fn well_formed(&self) -> bool {
        requests_distinct(self.facts@)
    }
}

impl View for FloatTable {
    type V = Map<FloatRequestModel, u64>;

    closed spec fn view(&self) -> Map<FloatRequestModel, u64> {
        assoc_map(facts_pairs(self.facts@))
    }
}

impl FloatTable {
    /// A table without answers.
    pub fn new() -> (table: FloatTable)
        ensures
            table@ == Map::<FloatRequestModel, u64>::empty(),
    {
        FloatTable { facts: Vec::new() }
    }

    /// Forgets every answer.
    pub fn clear(&mut self)
        ensures
            final(self)@ == Map::<FloatRequestModel, u64>::empty(),
    {
        self.facts = Vec::new();
        assert(facts_pairs(self.facts@) =~= Seq::empty());
    }

    /// The answer to a request, where the table holds one.
    pub fn lookup(&self, request: &FloatRequest) -> (answer: Option<u64>)
        ensures
            answer == (if self@.contains_key(request@) {
                Some(self@[request@])
            } else {
                None
            }),
    {
        let mut i: usize = self.facts.len();
        while i > 0
            invariant
                i <= self.facts.len(),
                forall|j: int| i <= j < self.facts.len() ==> self.facts[j].request@ != request@,
            decreases i,
        {
            i -= 1;
            if self.facts[i].request.same_as(request) {
                proof {
                    lemma_assoc_last_match(facts_pairs(self.facts@), request@, i as int);
                }
                return Some(self.facts[i].bits);
            }
        }
        proof {
            lemma_assoc_absent(facts_pairs(self.facts@), request@);
        }
        None
    }

    /// Records an answer, unless the request already has one.
    pub fn record(&mut self, request: FloatRequest, bits: u64)
        ensures
            final(self)@ == (if old(self)@.contains_key(request@) {
                old(self)@
            } else {
                old(self)@.insert(request@, bits)
            }),
    {
        proof {
            use_type_invariant(&*self);
        }
        if self.lookup(&request).is_none() {
            let mut facts: Vec<FloatFact> = Vec::new();
            std::mem::swap(&mut self.facts, &mut facts);
            let ghost before = facts@;
            proof {
                lemma_assoc_push(facts_pairs(before), request@, bits);
                assert(facts_pairs(before.push(FloatFact { request, bits })) =~= facts_pairs(
                    before,
                ).push((request@, bits)));
                assert forall|j: int| 0 <= j < before.len() implies (
                #[trigger] before[j]).request@ != request@ by {
                    if before[j].request@ == request@ {
                        lemma_assoc_present(facts_pairs(before), request@, j);
                    }
                }
            }
            facts.push(FloatFact { request, bits });
            assert(requests_distinct(facts@)) by {
                assert forall|a: int, b: int| 0 <= a < b < facts.len() implies (
                #[trigger] facts@[a]).request@ != (#[trigger] facts@[b]).request@ by {
                    if b < before.len() {
                        assert(before[a].request@ != before[b].request@);
                    } else {
                        assert(before[a].request@ != request@);
                    }
                }
            }
            self.facts = facts;
        }
    }
}

} // verus!
