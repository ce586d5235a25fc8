//! Substituting path aliases in references.

use crate::text::{replace_all, replaced_all};
use vstd::prelude::*;

verus! {

/// `reference` after each pair of `pairs` in turn has replaced every
/// occurrence of its token by its path.
pub open spec fn substituted(reference: Seq<char>, pairs: Seq<(Seq<char>, Seq<char>)>) -> Seq<char>
    decreases pairs.len(),
{
    if pairs.len() == 0 {
        reference
    } else {
        replaced_all(substituted(reference, pairs.drop_last()), pairs.last().0, pairs.last().1)
    }
}

/// The substitution list of one scanned directory: the aliases whose target
/// exists, each with the absolute path of that target, in the order in which
/// they were taken up.
pub struct AliasTable {
    pairs: Vec<(String, String)>,
}

impl View for AliasTable {
    type V = Seq<(Seq<char>, Seq<char>)>;

    closed spec fn view(&self) -> Seq<(Seq<char>, Seq<char>)> {
        self.pairs@.map_values(|pair: (String, String)| (pair.0@, pair.1@))
    }
}

impl AliasTable {
    /// A table without aliases.
    pub fn new() -> (table: Self)
        ensures
            table@ == Seq::<(Seq<char>, Seq<char>)>::empty(),
    {
        let table = AliasTable { pairs: Vec::new() };
        assert(table@ =~= Seq::<(Seq<char>, Seq<char>)>::empty());
        table
    }

    /// How many aliases take part in substitution.
    pub fn len(&self) -> (n: usize)
        ensures
            n == self@.len(),
    {
        self.pairs.len()
    }

    /// Takes up the alias `token`, whose target is the absolute path `path`,
    /// where that path is present on disk. An alias whose target is not
    /// present is dropped without an error and takes no part in substitution.
    pub fn add(&mut self, token: &str, path: &str, present: bool)
        ensures
            final(self)@ == if present {
                old(self)@.push((token@, path@))
            } else {
                old(self)@
            },
    {
        if present {
            let ghost before = self@;
            self.pairs.push((token.to_owned(), path.to_owned()));
            assert(self@ =~= before.push((token@, path@)));
        }
    }

    /// Replaces in `reference` every occurrence of each alias token by the
    /// alias's path, one alias after another in the order of the table.
    pub fn substitute(&self, reference: &str) -> (out: String)
        ensures
            out@ == substituted(reference@, self@),
    {
        let mut out = reference.to_owned();
        let mut i: usize = 0;
        while i < self.pairs.len()
            invariant
                i <= self.pairs.len(),
                out@ == substituted(reference@, self@.take(i as int)),
            decreases self.pairs.len() - i,
        {
            proof {
                assert(self@.take(i + 1).drop_last() =~= self@.take(i as int));
            }
            out = replace_all(out.as_str(), self.pairs[i].0.as_str(), self.pairs[i].1.as_str());
            i += 1;
        }
        proof {
            assert(self@.take(self.pairs.len() as int) =~= self@);
        }
        out
    }
}

} // verus!
