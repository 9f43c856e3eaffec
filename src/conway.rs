//! Conway's Game of Life (B3/S23) as a fixed rule, with a lookup table over
//! every status and packed neighborhood.

use crate::codec::{code_alive, count_alive, unpack, MooreNeighborhood};
use crate::rule::{compile_spec, first_slash_from, index_of, lists_count, rule_table};
use vstd::prelude::*;

verus! {

/// Conway's rule: a dead cell is born with exactly three live neighbors, a
/// live cell survives with two or three.
pub open spec fn conway_next(status: bool, alive: int) -> bool {
    if status {
        2 <= alive <= 3
    } else {
        alive == 3
    }
}

/// Conway's rule with its 512-entry lookup table, one entry for each status
/// and packed neighborhood.
pub struct ConwaysLife {
    table: Vec<bool>,
}

impl ConwaysLife {
    /// The table holds Conway's rule at every slot.
    #[verifier::type_invariant]
    spec fn table_matches_logic(&self) -> bool {
        &&& self.table@.len() == 512
        &&& forall|i: int|
            0 <= i < 512 ==> #[trigger] self.table@[i] == conway_next(
                i >= 256,
                code_alive((i % 256) as u8) as int,
            )
    }

    /// Builds the lookup table from the rule itself.
    pub fn new() -> (r: ConwaysLife) {
        let mut table: Vec<bool> = Vec::new();
        let mut i: usize = 0;
        while i < 512
            invariant
                i <= 512,
                table@.len() == i,
                forall|j: int|
                    0 <= j < i ==> #[trigger] table@[j] == conway_next(
                        j >= 256,
                        code_alive((j % 256) as u8) as int,
                    ),
            decreases 512 - i,
        {
            let status = i >= 256;
            let hood = (i % 256) as u8;
            table.push(ConwaysLife::logic(status, hood));
            i = i + 1;
        }
        ConwaysLife { table }
    }

    /// Conway's rule on a status and a number of live neighbors.
    pub fn simulate_with_logic(status: bool, alive_neighbors: usize) -> (r: bool)
        ensures
            r == conway_next(status, alive_neighbors as int),
    {
        if status {
            2 <= alive_neighbors && alive_neighbors <= 3
        } else {
            alive_neighbors == 3
        }
    }

    /// Conway's rule on a status and a packed neighborhood, by counting the
    /// live neighbors.
    pub fn logic(status: bool, hood: u8) -> (r: bool)
        ensures
            r == conway_next(status, code_alive(hood) as int),
    {
        let alive = MooreNeighborhood::from_code(hood).alive_count();
        ConwaysLife::simulate_with_logic(status, alive)
    }

    /// Conway's rule on a status and a packed neighborhood, read from the
    /// table.
    pub fn lookup(&self, status: bool, hood: u8) -> (r: bool)
        ensures
            r == conway_next(status, code_alive(hood) as int),
    {
        proof {
            use_type_invariant(self);
        }
        let index: usize = if status {
            256 + hood as usize
        } else {
            hood as usize
        };
        assert((index as int % 256) as u8 == hood);
        self.table[index]
    }
}

/// A sequence holds at most as many live entries as it has entries.
pub proof fn lemma_count_alive_bound(s: Seq<bool>)
    ensures
        count_alive(s) <= s.len(),
    decreases s.len(),
{
    if s.len() > 0 {
        lemma_count_alive_bound(s.drop_last());
    }
}

/// The rule `B3/S23` compiles, and to Conway's rule: for every status and
/// every neighbor count from 0 to 8 its table agrees with the logic, and so
/// it agrees with the fixed rule on every packed neighborhood.
pub proof fn lemma_b3s23_is_conway(def: &str, status: bool, count: int, hood: u8)
    requires
        def@ == "B3/S23"@,
        0 <= count <= 8,
    ensures
        compile_spec(def@) is Ok,
        ({
            let table = compile_spec(def@)->Ok_0;
            &&& table[index_of(status, count)] == conway_next(status, count)
            &&& table[index_of(status, code_alive(hood) as int)] == conway_next(
                status,
                code_alive(hood) as int,
            )
        }),
{
    reveal_strlit("B3/S23");
    let s = def@;
    assert(first_slash_from(s, 2) == 2);
    assert(first_slash_from(s, 1) == 2);
    assert(first_slash_from(s, 0) == 2);
    let births = s.subrange(0, 2).drop_first();
    let survivals = s.subrange(3, 6).drop_first();
    assert(births =~= seq!['3']);
    assert(survivals =~= seq!['2', '3']);
    assert(crate::rule::all_digits(births));
    assert(crate::rule::all_digits(survivals));
    assert(vstd::utf8::is_ascii_chars(s));
    let table = rule_table(births, survivals);
    assert(compile_spec(s) == Ok::<Seq<bool>, crate::rule::RuleError>(table));
    lemma_count_alive_bound(unpack(hood));
    assert forall|n: int| 0 <= n <= 8 implies #[trigger] table[index_of(status, n)] == conway_next(
        status,
        n,
    ) by {
        assert(n % 16 == n);
        if status {
            if lists_count(survivals, n) {
                let j = choose|j: int|
                    0 <= j < survivals.len() && crate::rule::digit_value(#[trigger] survivals[j]) == n;
                assert(j == 0 || j == 1);
            }
            if n == 2 {
                assert(crate::rule::digit_value(survivals[0]) == 2);
            }
            if n == 3 {
                assert(crate::rule::digit_value(survivals[1]) == 3);
            }
        } else {
            if lists_count(births, n) {
                let j = choose|j: int|
                    0 <= j < births.len() && crate::rule::digit_value(#[trigger] births[j]) == n;
                assert(j == 0);
            }
            if n == 3 {
                assert(crate::rule::digit_value(births[0]) == 3);
            }
        }
    }
}

} // verus!
