//! Instruction sequences: the unit in which emitted code is handed around.

use crate::hhbc_ast::{Instruct, SpecInstruct};
use vstd::prelude::*;

verus! {

/// Why emission failed.
#[derive(Debug, PartialEq, Eq)]
pub enum Error {
    /// The emitter met what cannot be. The text says what.
    Unrecoverable(String),
}

impl Error {
    /// The text of the error, in contracts.
    pub open spec fn message(self) -> Seq<char> {
        match self {
            Error::Unrecoverable(msg) => msg@,
        }
    }

    /// The text of the error.
    pub fn to_string(&self) -> (r: String)
        ensures
            r@ == self.message(),
    {
        match self {
            Error::Unrecoverable(msg) => msg.clone(),
        }
    }
}

/// The views of the instructions of `s`, in order.
pub open spec fn spec_instrs<'arena>(s: Seq<Instruct<'arena>>) -> Seq<SpecInstruct<'arena>> {
    Seq::new(s.len(), |i: int| s[i]@)
}

/// The items of `s` at the places where `keep` holds, in their order.
pub open spec fn picked<A>(s: Seq<A>, keep: Seq<bool>) -> Seq<A>
    decreases s.len(),
{
    if s.len() == 0 || keep.len() != s.len() {
        Seq::empty()
    } else {
        let front = picked(s.drop_last(), keep.drop_last());
        if keep.last() {
            front.push(s.last())
        } else {
            front
        }
    }
}

/// Picking by the answers of a predicate is filtering by the predicate.
pub proof fn lemma_picked_is_filter<A>(s: Seq<A>, keep: Seq<bool>, p: spec_fn(A) -> bool)
    requires
        keep.len() == s.len(),
        forall|k: int| 0 <= k < s.len() ==> keep[k] == p(s[k]),
    ensures
        picked(s, keep) == s.filter(p),
    decreases s.len(),
{
    reveal(Seq::filter);
    if s.len() > 0 {
        lemma_picked_is_filter(s.drop_last(), keep.drop_last(), p);
    }
}

/// An ordered sequence of instructions. Its view is the sequence of the
/// instructions' views.
#[derive(Debug, PartialEq, Eq)]
pub struct InstrSeq<'arena> {
    instrs: Vec<Instruct<'arena>>,
}

impl<'arena> View for InstrSeq<'arena> {
    type V = Seq<SpecInstruct<'arena>>;

    closed spec fn view(&self) -> Seq<SpecInstruct<'arena>> {
        spec_instrs(self.instrs@)
    }
}

impl<'arena> InstrSeq<'arena> {
    /// The instructions of all the parts, one part after the other.
    pub open spec fn spec_gather(parts: Seq<InstrSeq<'arena>>) -> Seq<SpecInstruct<'arena>> {
        parts.map_values(|p: InstrSeq<'arena>| p@).flatten()
    }

    /// The sequence without instructions.
    pub fn empty() -> (r: InstrSeq<'arena>)
        ensures
            r@ == Seq::<SpecInstruct<'arena>>::empty(),
    {
        let r = InstrSeq { instrs: Vec::new() };
        assert(r@ =~= Seq::<SpecInstruct<'arena>>::empty());
        r
    }

    /// The sequence of one instruction.
    pub fn instr(i: Instruct<'arena>) -> (r: InstrSeq<'arena>)
        ensures
            r@ == seq![i@],
    {
        let mut v: Vec<Instruct<'arena>> = Vec::new();
        v.push(i);
        let r = InstrSeq { instrs: v };
        assert(r@ =~= seq![i@]);
        r
    }

    /// The sequence of the instructions of `v`, in order.
    pub fn from_vec(v: Vec<Instruct<'arena>>) -> (r: InstrSeq<'arena>)
        ensures
            r@ == spec_instrs(v@),
    {
        InstrSeq { instrs: v }
    }

    /// The instructions, in order.
    pub fn as_slice(&self) -> (r: &[Instruct<'arena>])
        ensures
            spec_instrs(r@) == self@,
    {
        self.instrs.as_slice()
    }

    /// The instructions, in order, as a vector of its own.
    pub fn to_vec(&self) -> (r: Vec<Instruct<'arena>>)
        ensures
            spec_instrs(r@) == self@,
    {
        let mut r: Vec<Instruct<'arena>> = Vec::new();
        let mut i: usize = 0;
        while i < self.instrs.len()
            invariant
                i <= self.instrs.len(),
                r@ == self.instrs@.take(i as int),
            decreases self.instrs.len() - i,
        {
            r.push(self.instrs[i]);
            assert(r@ =~= self.instrs@.take(i + 1));
            i += 1;
        }
        assert(r@ =~= self.instrs@);
        r
    }

    /// The number of instructions.
    pub fn len(&self) -> (n: usize)
        ensures
            n == self@.len(),
    {
        self.instrs.len()
    }

    pub fn is_empty(&self) -> (b: bool)
        ensures
            b == (self@.len() == 0),
    {
        self.instrs.len() == 0
    }

    /// The instruction at position `i`.
    pub fn get(&self, i: usize) -> (r: Instruct<'arena>)
        requires
            i < self@.len(),
        ensures
            r@ == self@[i as int],
    {
        self.instrs[i]
    }

    /// Puts `instr` in the place of the instruction at position `i`.
    pub fn set(&mut self, i: usize, instr: Instruct<'arena>)
        requires
            i < old(self)@.len(),
        ensures
            final(self)@ == old(self)@.update(i as int, instr@),
    {
        self.instrs.set(i, instr);
        assert(self@ =~= old(self)@.update(i as int, instr@));
    }

    /// The predicate `p` says of every instruction what `f` answers.
    pub open spec fn computes<F: Fn(&Instruct<'arena>) -> bool>(
        f: F,
        p: spec_fn(SpecInstruct<'arena>) -> bool,
    ) -> bool {
        forall|i: Instruct<'arena>, b: bool| call_ensures(f, (&i,), b) ==> b == p(i@)
    }

    /// Keeps the instructions of which `f` answers `true`, in their order,
    /// and drops the others: the sequence is filtered by whatever predicate
    /// `f` computes.
    pub fn retain<F: Fn(&Instruct<'arena>) -> bool>(&mut self, f: F)
        requires
            forall|i: Instruct<'arena>| call_requires(f, (&i,)),
        ensures
            forall|p: spec_fn(SpecInstruct<'arena>) -> bool|
                Self::computes(f, p) ==> final(self)@ == #[trigger] old(self)@.filter(p),
    {
        let ghost mut answers: Seq<bool> = Seq::empty();
        let mut kept: Vec<Instruct<'arena>> = Vec::new();
        let mut i: usize = 0;
        assert(spec_instrs(kept@) =~= picked(self@.take(0), answers));
        while i < self.instrs.len()
            invariant
                i <= self.instrs.len(),
                *self == *old(self),
                forall|i: Instruct<'arena>| call_requires(f, (&i,)),
                answers.len() == i,
                forall|k: int| 0 <= k < i ==> call_ensures(f, (&self.instrs@[k],), #[trigger] answers[k]),
                spec_instrs(kept@) == picked(self@.take(i as int), answers),
            decreases self.instrs.len() - i,
        {
            let instr = self.instrs[i];
            let ghost before = spec_instrs(kept@);
            let ghost seen = answers;
            let keep = f(&instr);
            proof {
                answers = answers.push(keep);
                assert(self@.take(i + 1).drop_last() =~= self@.take(i as int));
                assert(answers.drop_last() =~= seen);
            }
            if keep {
                kept.push(instr);
                assert(spec_instrs(kept@) =~= before.push(instr@));
            }
            i += 1;
        }
        proof {
            assert(self@.take(i as int) =~= self@);
            assert forall|p: spec_fn(SpecInstruct<'arena>) -> bool|
                Self::computes(f, p) implies spec_instrs(kept@) == #[trigger] self@.filter(p) by {
                assert forall|k: int| 0 <= k < self@.len() implies answers[k] == p(self@[k]) by {
                    assert(call_ensures(f, (&self.instrs@[k],), answers[k]));
                }
                lemma_picked_is_filter(self@, answers, p);
            }
        }
        self.instrs = kept;
    }

    /// Adds one instruction at the end.
    pub fn push(&mut self, i: Instruct<'arena>)
        ensures
            final(self)@ == old(self)@.push(i@),
    {
        self.instrs.push(i);
        assert(self@ =~= old(self)@.push(i@));
    }

    /// Moves the instructions of `other` to the end of this sequence.
    pub fn append(&mut self, other: InstrSeq<'arena>)
        ensures
            final(self)@ == old(self)@ + other@,
    {
        let mut other = other;
        let ghost tail = other@;
        self.instrs.append(&mut other.instrs);
        assert(self@ =~= old(self)@ + tail);
    }

    /// Adds a copy of each instruction of `other` at the end.
    pub fn extend(&mut self, other: &InstrSeq<'arena>)
        ensures
            final(self)@ == old(self)@ + other@,
    {
        let mut i: usize = 0;
        while i < other.instrs.len()
            invariant
                i <= other.instrs.len(),
                self@ == old(self)@ + other@.take(i as int),
            decreases other.instrs.len() - i,
        {
            let ghost before = self@;
            self.instrs.push(other.instrs[i]);
            assert(self@ =~= before.push(other@[i as int]));
            assert(self@ =~= old(self)@ + other@.take(i + 1));
            i += 1;
        }
        assert(other@.take(i as int) =~= other@);
    }

    /// A copy of this sequence.
    pub fn duplicate(&self) -> (r: InstrSeq<'arena>)
        ensures
            r@ == self@,
    {
        let mut r = InstrSeq::empty();
        r.extend(self);
        assert(r@ =~= self@);
        r
    }

    /// Flattens the parts into one sequence: the instructions of the first
    /// part, then those of the second, and so on.
    pub fn gather(parts: Vec<InstrSeq<'arena>>) -> (r: InstrSeq<'arena>)
        ensures
            r@ == Self::spec_gather(parts@),
    {
        let mut r = InstrSeq::empty();
        let mut i: usize = 0;
        assert(parts@.take(0).map_values(|p: InstrSeq<'arena>| p@) =~= Seq::<
            Seq<SpecInstruct<'arena>>,
        >::empty());
        while i < parts.len()
            invariant
                i <= parts.len(),
                r@ == Self::spec_gather(parts@.take(i as int)),
            decreases parts.len() - i,
        {
            r.extend(&parts[i]);
            proof {
                let f = |p: InstrSeq<'arena>| p@;
                let done = parts@.take(i as int);
                assert(parts@.take(i + 1) =~= done.push(parts@[i as int]));
                assert(done.push(parts@[i as int]).map_values(f) =~= done.map_values(f).push(
                    parts@[i as int]@,
                ));
                done.map_values(f).lemma_flatten_push(parts@[i as int]@);
            }
            i += 1;
        }
        assert(parts@.take(i as int) =~= parts@);
        r
    }
}

} // verus!
