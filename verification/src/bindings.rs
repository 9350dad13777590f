//! Variable bindings: the mapping from single-character identifiers to
//! values that a single evaluation runs against.
//!
//! A value is carried as the IEEE 754 bit pattern of a double-precision
//! number, like every numeric value in this crate.  The mapping is supplied
//! fresh per evaluation call and never retained by an expression.
use vstd::prelude::*;

verus! {

/// The mapping a sequence of (identifier, value) entries denotes: a later
/// entry for the same identifier shadows an earlier one.
pub open spec fn map_of(entries: Seq<(char, u64)>) -> Map<char, u64>
    decreases entries.len(),
{
    if entries.len() == 0 {
        Map::empty()
    } else {
        map_of(entries.drop_last()).insert(entries.last().0, entries.last().1)
    }
}

/// The value of the newest entry for `c`, if any.
pub open spec fn lookup(entries: Seq<(char, u64)>, c: char) -> Option<u64>
    decreases entries.len(),
{
    if entries.len() == 0 {
        None
    } else if entries.last().0 == c {
        Some(entries.last().1)
    } else {
        lookup(entries.drop_last(), c)
    }
}

/// Scanning entries newest-first finds exactly the value the denoted
/// mapping holds.
pub proof fn lemma_lookup_matches_map(entries: Seq<(char, u64)>, c: char)
    ensures
        match lookup(entries, c) {
            Some(v) => map_of(entries).dom().contains(c) && map_of(entries)[c] == v,
            None => !map_of(entries).dom().contains(c),
        },
    decreases entries.len(),
{
    if entries.len() > 0 && entries.last().0 != c {
        lemma_lookup_matches_map(entries.drop_last(), c);
    }
}

/// A set of variable bindings, viewed as a `Map<char, u64>` from identifier
/// to the bound value's bit pattern.
#[derive(Clone, Debug)]
pub struct Bindings {
    entries: Vec<(char, u64)>,
}

impl View for Bindings {
    type V = Map<char, u64>;

    closed spec fn view(&self) -> Map<char, u64> {
        map_of(self.entries@)
    }
}

impl Bindings {
    /// An empty set of bindings.
    pub fn new() -> (r: Bindings)
        ensures
            r@ == Map::<char, u64>::empty(),
    {
        Bindings { entries: Vec::new() }
    }

    /// Binds `identifier` to `value`, replacing any earlier binding for it.
    pub fn insert(&mut self, identifier: char, value: u64)
        ensures
            final(self)@ == old(self)@.insert(identifier, value),
    {
        self.entries.push((identifier, value));
        proof {
            assert(self.entries@.drop_last() =~= old(self).entries@);
        }
    }

    /// The value bound to `identifier`, if any.
    pub fn get(&self, identifier: char) -> (r: Option<u64>)
        ensures
            match r {
                Some(v) => self@.dom().contains(identifier) && self@[identifier] == v,
                None => !self@.dom().contains(identifier),
            },
    {
        let ghost all = self.entries@;
        let mut i: usize = self.entries.len();
        proof {
            assert(all.take(i as int) =~= all);
        }
        while i > 0
            invariant
                all == self.entries@,
                i <= all.len(),
                lookup(all, identifier) == lookup(all.take(i as int), identifier),
            decreases i,
        {
            i = i - 1;
            let (k, v) = self.entries[i];
            proof {
                assert(all.take(i as int + 1).last() == (k, v));
                assert(all.take(i as int + 1).drop_last() =~= all.take(i as int));
            }
            if k == identifier {
                proof {
                    lemma_lookup_matches_map(all, identifier);
                }
                return Some(v);
            }
        }
        proof {
            assert(all.take(0) =~= Seq::<(char, u64)>::empty());
            lemma_lookup_matches_map(all, identifier);
        }
        None
    }
}

} // verus!
