//! A finite set of grid coordinates, stored in a hash set of integer keys.

use std::collections::HashSet;
use vstd::arithmetic::div_mod::{lemma_fundamental_div_mod, lemma_fundamental_div_mod_converse};
use vstd::prelude::*;
use vstd::set_lib::lemma_map_size;

verus! {

broadcast use vstd::std_specs::hash::group_hash_axioms;

/// A grid coordinate `(x, y)`.
pub type Cell = (i32, i32);

/// Number of distinct values of one `i32` coordinate.
pub open spec fn span() -> int {
    4294967296
}

/// Offset that moves an `i32` into `0..span()`.
pub open spec fn shift() -> int {
    2147483648
}

/// The integer key under which a cell is stored: a bijection between
/// `(i32, i32)` and `0..span() * span()`.
pub open spec fn cell_key(c: Cell) -> int {
    (c.0 + shift()) * span() + (c.1 + shift())
}

/// The cell stored under a key; inverse of `cell_key`.
pub open spec fn key_cell(k: u64) -> Cell {
    ((k as int / span() - shift()) as i32, (k as int % span() - shift()) as i32)
}

proof fn lemma_key_cell_of_cell_key(c: Cell)
    ensures
        0 <= cell_key(c) < span() * span(),
        key_cell(cell_key(c) as u64) == c,
{
    let a = c.0 + shift();
    let b = c.1 + shift();
    assert(0 <= a * 4294967296 + b < 18446744073709551616);
    lemma_fundamental_div_mod_converse(cell_key(c), span(), a, b);
}

proof fn lemma_cell_key_of_key_cell(k: u64)
    ensures
        cell_key(key_cell(k)) == k as int,
{
    lemma_fundamental_div_mod(k as int, span());
    assert(0 <= k as int / span() < span());
    assert(0 <= k as int % span() < span());
}

fn key_of(c: Cell) -> (k: u64)
    ensures
        k as int == cell_key(c),
{
    let a: u64 = (c.0 as i64 + 2147483648i64) as u64;
    let b: u64 = (c.1 as i64 + 2147483648i64) as u64;
    a * 4294967296 + b
}

fn cell_of_key(k: u64) -> (c: Cell)
    ensures
        c == key_cell(k),
{
    let hi: i64 = (k / 4294967296) as i64;
    let lo: i64 = (k % 4294967296) as i64;
    ((hi - 2147483648) as i32, (lo - 2147483648) as i32)
}

/// A finite set of cells.
pub struct CellSet {
    keys: HashSet<u64>,
}

impl View for CellSet {
    type V = Set<Cell>;

    closed spec fn view(&self) -> Set<Cell> {
        self.keys@.map(|k: u64| key_cell(k))
    }
}

impl CellSet {
    #[verifier::type_invariant]
    spec fn keys_finite(&self) -> bool {
        self.keys@.finite()
    }

    proof fn lemma_view_contains(&self, c: Cell)
        ensures
            self@.contains(c) <==> self.keys@.contains(cell_key(c) as u64),
    {
        lemma_key_cell_of_cell_key(c);
        if self@.contains(c) {
            let k = choose|k: u64| self.keys@.contains(k) && key_cell(k) == c;
            lemma_cell_key_of_key_cell(k);
        }
    }

    proof fn lemma_view_len(&self)
        requires
            self.keys@.finite(),
        ensures
            self@.finite(),
            self@.len() == self.keys@.len(),
    {
        let f = |k: u64| key_cell(k);
        assert forall|k1: u64, k2: u64|
            self.keys@.contains(k1) && self.keys@.contains(k2) && #[trigger] f(k1) == #[trigger] f(
                k2,
            ) implies k1 == k2 by {
            lemma_cell_key_of_key_cell(k1);
            lemma_cell_key_of_key_cell(k2);
        }
        lemma_map_size(self.keys@, self@, f);
    }

    /// An empty set.
    pub fn new() -> (s: CellSet)
        ensures
            s@ == Set::<Cell>::empty(),
    {
        let s = CellSet { keys: HashSet::new() };
        assert(s@ =~= Set::<Cell>::empty());
        s
    }

    /// Whether `c` is in the set.
    pub fn contains(&self, c: Cell) -> (r: bool)
        ensures
            r == self@.contains(c),
    {
        let k = key_of(c);
        proof {
            self.lemma_view_contains(c);
        }
        self.keys.contains(&k)
    }

    /// Adds `c`; the result tells whether it was absent before.
    pub fn insert(&mut self, c: Cell) -> (r: bool)
        ensures
            final(self)@ == old(self)@.insert(c),
            r == !old(self)@.contains(c),
    {
        proof {
            use_type_invariant(&*self);
            self.lemma_view_contains(c);
            lemma_key_cell_of_cell_key(c);
        }
        let k = key_of(c);
        let mut keys = HashSet::new();
        std::mem::swap(&mut keys, &mut self.keys);
        let r = keys.insert(k);
        self.keys = keys;
        assert forall|d: Cell| #[trigger] self@.contains(d) <==> old(self)@.insert(c).contains(d) by {
            self.lemma_view_contains(d);
            old(self).lemma_view_contains(d);
            lemma_key_cell_of_cell_key(d);
        }
        assert(self@ =~= old(self)@.insert(c));
        r
    }

    /// The cells of the set, each once, in no particular order.
    pub fn to_vec(&self) -> (r: Vec<Cell>)
        ensures
            r@.to_set() == self@,
            r@.no_duplicates(),
    {
        let mut out: Vec<Cell> = Vec::new();
        let ghost mut seen: Seq<u64> = Seq::empty();
        for k in it: self.keys.iter()
            invariant
                it.seq().unref().to_set() == self.keys@,
                it.seq().unref().no_duplicates(),
                seen == it.seq().unref().take(it.index() as int),
                out@ == seen.map_values(|kk: u64| key_cell(kk)),
                it.index() == it.seq().len() ==> seen.to_set() == self.keys@ && seen.no_duplicates(),
        {
            proof {
                assert(*k == it.seq().unref()[it.index() as int]);
                let next = seen.push(*k);
                assert(next =~= it.seq().unref().take(it.index() + 1));
                if it.index() + 1 == it.seq().len() {
                    assert(next =~= it.seq().unref());
                }
                seen = next;
            }
            out.push(cell_of_key(*k));
            assert(out@ =~= seen.map_values(|kk: u64| key_cell(kk)));
        }
        proof {
            assert(seen.to_set() == self.keys@);
            assert forall|c: Cell| #[trigger] out@.to_set().contains(c) <==> self@.contains(c) by {
                if out@.to_set().contains(c) {
                    let i = choose|i: int| 0 <= i < out@.len() && out@[i] == c;
                    assert(seen.to_set().contains(seen[i]));
                }
                if self@.contains(c) {
                    let k = choose|k: u64| self.keys@.contains(k) && key_cell(k) == c;
                    assert(seen.to_set().contains(k));
                    let i = choose|i: int| 0 <= i < seen.len() && seen[i] == k;
                    assert(out@[i] == c);
                }
            }
            assert(out@.to_set() =~= self@);
            assert forall|i: int, j: int|
                0 <= i < out@.len() && 0 <= j < out@.len() && i != j implies out@[i] != out@[j] by {
                lemma_cell_key_of_key_cell(seen[i]);
                lemma_cell_key_of_key_cell(seen[j]);
            }
        }
        out
    }

    /// The number of cells in the set.
    pub fn len(&self) -> (r: usize)
        ensures
            self@.finite(),
            r == self@.len(),
    {
        proof {
            use_type_invariant(self);
            self.lemma_view_len();
        }
        self.keys.len()
    }
}

} // verus!
