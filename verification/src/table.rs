//! The name-to-address lookup table, read once per run from a flat
//! configuration text: one `name : address` per line, both sides trimmed,
//! malformed lines skipped, the last line winning on a repeated name.

use vstd::prelude::*;
use crate::text::split_on;
use crate::text::split_str;
use crate::text::str_eq;
use crate::text::trim_spec;
use crate::text::trim_str;

verus! {

/// The mapping an association list denotes: earlier pairs first, so a later
/// pair with the same name overwrites an earlier one.
pub open spec fn assoc_map(p: Seq<(Seq<char>, Seq<char>)>) -> Map<Seq<char>, Seq<char>>
    decreases p.len(),
{
    if p.len() == 0 {
        Map::empty()
    } else {
        assoc_map(p.drop_last()).insert(p.last().0, p.last().1)
    }
}

/// The last pair carrying a name decides its mapping.
proof fn lemma_assoc_map_found(p: Seq<(Seq<char>, Seq<char>)>, k: Seq<char>, i: int)
    requires
        0 <= i < p.len(),
        p[i].0 == k,
        forall|j: int| i < j < p.len() ==> (#[trigger] p[j]).0 != k,
    ensures
        assoc_map(p).contains_key(k),
        assoc_map(p)[k] == p[i].1,
    decreases p.len(),
{
    if i < p.len() - 1 {
        lemma_assoc_map_found(p.drop_last(), k, i);
    }
}

/// A name no pair carries is absent from the mapping.
proof fn lemma_assoc_map_absent(p: Seq<(Seq<char>, Seq<char>)>, k: Seq<char>)
    requires
        forall|j: int| 0 <= j < p.len() ==> (#[trigger] p[j]).0 != k,
    ensures
        !assoc_map(p).contains_key(k),
    decreases p.len(),
{
    if p.len() > 0 {
        lemma_assoc_map_absent(p.drop_last(), k);
    }
}

/// The name-to-address table. Its model is the list of pairs it was built
/// from, in order; the mapping it denotes is `assoc_map` of that list.
pub struct LookupTable {
    items: Vec<(String, String)>,
}

impl View for LookupTable {
    type V = Map<Seq<char>, Seq<char>>;

    open spec fn view(&self) -> Map<Seq<char>, Seq<char>> {
        assoc_map(self.pairs())
    }
}

impl LookupTable {
    /// The pairs this table was built from, in insertion order.
    pub closed spec fn pairs(&self) -> Seq<(Seq<char>, Seq<char>)> {
        Seq::new(self.items@.len(), |i: int| (self.items@[i].0@, self.items@[i].1@))
    }

    /// An empty table.
    pub fn new() -> (r: Self)
        ensures
            r.pairs() == Seq::<(Seq<char>, Seq<char>)>::empty(),
    {
        let r = LookupTable { items: Vec::new() };
        proof {
            assert(r.pairs() =~= Seq::<(Seq<char>, Seq<char>)>::empty());
        }
        r
    }

    /// Appends one pair; on a repeated name the new pair, being later,
    /// overwrites the old one in the mapping.
    pub fn insert(&mut self, name: String, addr: String)
        ensures
            final(self).pairs() == old(self).pairs().push((name@, addr@)),
    {
        self.items.push((name, addr));
        proof {
            assert(self.pairs() =~= old(self).pairs().push((name@, addr@)));
        }
    }

    /// How many pairs the table holds.
    pub fn len(&self) -> (r: usize)
        ensures
            r == self.pairs().len(),
    {
        self.items.len()
    }

    /// The address a name maps to, if the name is present.
    pub fn lookup(&self, name: &str) -> (r: Option<&String>)
        ensures
            r is Some <==> self@.contains_key(name@),
            r matches Some(a) ==> a@ == self@[name@],
    {
        let mut i: usize = self.items.len();
        while i > 0
            invariant
                i <= self.items@.len(),
                forall|j: int| i <= j < self.pairs().len() ==> (#[trigger] self.pairs()[j]).0
                    != name@,
            decreases i,
        {
            i = i - 1;
            if str_eq(self.items[i].0.as_str(), name) {
                proof {
                    lemma_assoc_map_found(self.pairs(), name@, i as int);
                }
                return Some(&self.items[i].1);
            }
        }
        proof {
            lemma_assoc_map_absent(self.pairs(), name@);
        }
        None
    }
}

/// The pair one configuration line yields: the text before the first `:`
/// and the text between the first and a possible second `:`, both trimmed;
/// nothing when the line holds no `:` at all.
pub open spec fn line_entry(line: Seq<char>) -> Option<(Seq<char>, Seq<char>)> {
    let ps = split_on(line, ':');
    if ps.len() < 2 {
        None
    } else {
        Some((trim_spec(ps[0]), trim_spec(ps[1])))
    }
}

/// The pairs a whole configuration text yields, line by line, in order.
pub open spec fn config_pairs(lines: Seq<Seq<char>>) -> Seq<(Seq<char>, Seq<char>)>
    decreases lines.len(),
{
    if lines.len() == 0 {
        Seq::empty()
    } else {
        let rest = config_pairs(lines.drop_last());
        match line_entry(lines.last()) {
            Some(p) => rest.push(p),
            None => rest,
        }
    }
}

/// The mapping a whole configuration text denotes.
pub open spec fn config_map(text: Seq<char>) -> Map<Seq<char>, Seq<char>> {
    assoc_map(config_pairs(split_on(text, '\n')))
}

/// Builds the lookup table from the configuration text: one `name : address`
/// per line; a line without `:` contributes nothing; on a repeated name the
/// last line wins.
pub fn parse_table(text: &str) -> (r: LookupTable)
    ensures
        r.pairs() == config_pairs(split_on(text@, '\n')),
        r@ == config_map(text@),
{
    let mut table = LookupTable::new();
    let lines = split_str(text, '\n');
    let nl = lines.len();
    let ghost all_lines = split_on(text@, '\n');
    let mut i: usize = 0;
    proof {
        assert(all_lines.take(0) =~= Seq::<Seq<char>>::empty());
    }
    while i < nl
        invariant
            i <= nl,
            nl == lines@.len(),
            nl == all_lines.len(),
            all_lines == split_on(text@, '\n'),
            forall|j: int| 0 <= j < nl ==> #[trigger] lines@[j]@ == all_lines[j],
            table.pairs() == config_pairs(all_lines.take(i as int)),
        decreases nl - i,
    {
        let line = lines[i];
        let ps = split_str(line, ':');
        proof {
            assert(all_lines.take(i + 1).drop_last() =~= all_lines.take(i as int));
            assert(all_lines.take(i + 1).last() == line@);
        }
        if ps.len() >= 2 {
            let name = trim_str(ps[0]);
            let addr = trim_str(ps[1]);
            table.insert(name.to_owned(), addr.to_owned());
        }
        i = i + 1;
    }
    proof {
        assert(all_lines.take(nl as int) =~= all_lines);
    }
    table
}

} // verus!
