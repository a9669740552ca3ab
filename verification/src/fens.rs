//! The supplier of positions: a list that is walked round and round, or
//! once to its end.

use vstd::prelude::*;

verus! {

/// A list of positions in Forsyth-Edwards notation and the index of the one
/// that is handed out next.
pub struct Fens {
    fens: Vec<String>,
    index: usize,
    cycling: bool,
}

pub struct FensView {
    pub list: Seq<Seq<char>>,
    pub index: nat,
    /// Whether the supplier goes back to the start behind the last
    /// position, or has nothing more to hand out there.
    pub cycling: bool,
}

impl FensView {
    /// The index points into the list or just behind it, and a cycling
    /// supplier of a list that is not empty never stands behind it.
    pub open spec fn wf(self) -> bool {
        &&& self.index <= self.list.len()
        &&& self.cycling && self.list.len() > 0 ==> self.index < self.list.len()
    }

    /// The position handed out next, if there is one.
    pub open spec fn current(self) -> Option<Seq<char>> {
        if self.index < self.list.len() {
            Some(self.list[self.index as int])
        } else {
            None
        }
    }

    /// The supplier after it was asked for a position. Where it had one,
    /// the index moves on by one, and a cycling supplier goes back to the
    /// start behind the last position.
    pub open spec fn advance(self) -> FensView {
        if self.index >= self.list.len() {
            self
        } else if self.cycling {
            FensView { index: ((self.index + 1) as int % (self.list.len() as int)) as nat, ..self }
        } else {
            FensView { index: self.index + 1, ..self }
        }
    }
}

impl View for Fens {
    type V = FensView;

    closed spec fn view(&self) -> FensView {
        FensView {
            list: self.fens.deep_view(),
            index: self.index as nat,
            cycling: self.cycling,
        }
    }
}

impl Fens {
    #[verifier::type_invariant]
    spec fn well_formed(&self) -> bool {
        &&& self.index <= self.fens.len()
        &&& self.cycling && self.fens.len() > 0 ==> self.index < self.fens.len()
    }

    /// A supplier that starts at the first position of `fens` and goes
    /// round and round.
    pub fn new(fens: Vec<String>) -> (f: Fens)
        ensures
            f@ == (FensView { list: fens.deep_view(), index: 0, cycling: true }),
            f@.wf(),
    {
        Fens { fens, index: 0, cycling: true }
    }

    /// A supplier that hands out each position of `fens` once, and then
    /// nothing.
    pub fn exhausting(fens: Vec<String>) -> (f: Fens)
        ensures
            f@ == (FensView { list: fens.deep_view(), index: 0, cycling: false }),
            f@.wf(),
    {
        Fens { fens, index: 0, cycling: false }
    }

    /// The number of positions in the list.
    pub fn len(&self) -> (n: usize)
        ensures
            n == self@.list.len(),
            self@.wf(),
    {
        proof {
            use_type_invariant(self);
        }
        self.fens.len()
    }

    /// Get the next FEN string, cycling to the start if at the end; a
    /// supplier that does not cycle has none at the end.
    pub fn get_next(&mut self) -> (fen: Option<&str>)
        ensures
            old(self)@.wf(),
            final(self)@ == old(self)@.advance(),
            final(self)@.wf(),
            match fen {
                Some(s) => old(self)@.current() == Some(s@),
                None => old(self)@.current() is None,
            },
    {
        proof {
            use_type_invariant(&*self);
        }
        if self.index >= self.fens.len() {
            return None;
        }
        let at = self.index;
        if self.cycling {
            self.index = (self.index + 1) % self.fens.len();
        } else {
            self.index = self.index + 1;
        }
        assert(self.fens.deep_view()[at as int] == self.fens[at as int]@);
        Some(self.fens[at].as_str())
    }

    /// Get the FEN string at a specific index.
    pub fn get(&self, index: usize) -> (fen: Option<&str>)
        ensures
            match fen {
                Some(s) => index < self@.list.len() && s@ == self@.list[index as int],
                None => index >= self@.list.len(),
            },
    {
        if index < self.fens.len() {
            assert(self.fens.deep_view()[index as int] == self.fens[index as int]@);
            Some(self.fens[index].as_str())
        } else {
            None
        }
    }
}

} // verus!
