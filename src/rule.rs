//! Life-like rules: a `B…/S…` definition compiled into a table from a cell's
//! status and live-neighbor count to its next status.

use vstd::prelude::*;
use vstd::utf8::is_ascii_chars;

verus! {

/// The number of slots in a rule table: a status bit and a neighbor count
/// from 0 to 8.
pub const TABLE_LEN: usize = 18;

/// The table slot of a status and a neighbor count (only the low four bits
/// of the count are kept).
pub open spec fn index_of(status: bool, neighbors: int) -> int {
    (if status {
        1int
    } else {
        0int
    }) + 2 * (neighbors % 16)
}

/// The status and neighbor count that a table slot stands for.
pub open spec fn slot_of(index: int) -> (bool, int) {
    (index % 2 == 1, (index / 2) % 16)
}

/// The slot of a status and a neighbor count; counts are taken modulo 16.
pub fn encode_index(status: bool, neighbors: usize) -> (r: usize)
    ensures
        r == index_of(status, neighbors as int),
{
    let lowest: usize = if status {
        1
    } else {
        0
    };
    let low = neighbors & 0b1111;
    assert(neighbors & 0b1111 == neighbors % 16) by (bit_vector);
    assert(low <= 15) by (bit_vector)
        requires
            low == neighbors & 0b1111,
    ;
    assert(low << 1u32 == low * 2) by (bit_vector)
        requires
            low <= 15,
    ;
    lowest + (low << 1u32)
}

/// The status and neighbor count of a slot.
pub fn decode_index(index: usize) -> (r: (bool, usize))
    ensures
        (r.0, r.1 as int) == slot_of(index as int),
{
    assert((index & 1 != 0) == (index % 2 == 1)) by (bit_vector);
    assert((index & 0b11110) >> 1u32 == (index / 2) % 16) by (bit_vector);
    (index & 1 != 0, (index & 0b11110) >> 1u32)
}

/// Decoding an encoded slot gives back the status and the neighbor count
/// reduced to its low four bits.
pub proof fn lemma_index_round_trip(status: bool, neighbors: int)
    requires
        neighbors >= 0,
    ensures
        slot_of(index_of(status, neighbors)) == (status, neighbors % 16),
{
    let b: int = if status {
        1
    } else {
        0
    };
    let n = neighbors % 16;
    assert(0 <= n < 16);
    assert((b + 2 * n) % 2 == b) by (nonlinear_arith)
        requires
            0 <= b <= 1,
            0 <= n,
    {
        vstd::arithmetic::div_mod::lemma_fundamental_div_mod(b + 2 * n, 2);
    }
    assert((b + 2 * n) / 2 == n) by (nonlinear_arith)
        requires
            0 <= b <= 1,
            0 <= n,
    {
        vstd::arithmetic::div_mod::lemma_fundamental_div_mod(b + 2 * n, 2);
    }
}

/// Whether `c` is a decimal digit.
pub open spec fn is_digit(c: char) -> bool {
    '0' <= c && c <= '9'
}

/// The value of a decimal digit.
pub open spec fn digit_value(c: char) -> int {
    c as int - '0' as int
}

/// Whether every character of a run is a decimal digit.
pub open spec fn all_digits(run: Seq<char>) -> bool {
    forall|j: int| 0 <= j < run.len() ==> is_digit(#[trigger] run[j])
}

/// Whether a run of digits lists the neighbor count `n`.
pub open spec fn lists_count(run: Seq<char>, n: int) -> bool {
    exists|j: int| 0 <= j < run.len() && digit_value(#[trigger] run[j]) == n
}

/// The table of a rule whose birth digits are `births` and whose survival
/// digits are `survivals`: a dead cell is born on a listed birth count, a
/// live cell survives on a listed survival count.
pub open spec fn rule_table(births: Seq<char>, survivals: Seq<char>) -> Seq<bool> {
    Seq::new(
        TABLE_LEN as nat,
        |i: int|
            if i % 2 == 0 {
                lists_count(births, i / 2)
            } else {
                lists_count(survivals, i / 2)
            },
    )
}

/// The index of the first `/` at or after `i`, or the length if there is
/// none.
pub open spec fn first_slash_from(s: Seq<char>, i: int) -> int
    decreases s.len() - i,
{
    if i >= s.len() {
        s.len() as int
    } else if s[i] == '/' {
        i
    } else {
        first_slash_from(s, i + 1)
    }
}

/// Why a rule definition was refused.
#[derive(Debug, Clone, Copy, PartialEq, Eq, Structural)]
pub enum RuleError {
    /// The definition holds a character outside ASCII.
    NotAscii,
    /// The definition has no `/` between its two halves.
    MissingSeparator,
    /// The first half does not start with `b` or `B`.
    MissingBirthPrefix,
    /// The second half does not start with `s` or `S`.
    MissingSurvivalPrefix,
    /// The first half holds a character that is not a digit.
    BadBirthDigit,
    /// The second half holds a character that is not a digit.
    BadSurvivalDigit,
}

impl RuleError {
    /// A sentence that describes the error.
    pub fn message(&self) -> &'static str {
        match self {
            RuleError::NotAscii => "definition string must be ascii",
            RuleError::MissingSeparator => "invalid definition string format",
            RuleError::MissingBirthPrefix => "first part of def string must start with 'b'",
            RuleError::MissingSurvivalPrefix => "second part of def string must start with 's'",
            RuleError::BadBirthDigit => "could not parse numbers from definition string first part",
            RuleError::BadSurvivalDigit => "could not parse numbers from definition string second part",
        }
    }
}

/// What compiling the definition `s` gives: the rule table, or the first
/// error found, checked in this order: ASCII, separator, birth prefix,
/// survival prefix, birth digits, survival digits.
pub open spec fn compile_spec(s: Seq<char>) -> Result<Seq<bool>, RuleError> {
    let p = first_slash_from(s, 0);
    let b = s.subrange(0, p);
    let t = s.subrange(p + 1, s.len() as int);
    if !is_ascii_chars(s) {
        Err(RuleError::NotAscii)
    } else if p == s.len() {
        Err(RuleError::MissingSeparator)
    } else if b.len() == 0 || (b[0] != 'b' && b[0] != 'B') {
        Err(RuleError::MissingBirthPrefix)
    } else if t.len() == 0 || (t[0] != 's' && t[0] != 'S') {
        Err(RuleError::MissingSurvivalPrefix)
    } else if !all_digits(b.drop_first()) {
        Err(RuleError::BadBirthDigit)
    } else if !all_digits(t.drop_first()) {
        Err(RuleError::BadSurvivalDigit)
    } else {
        Ok(rule_table(b.drop_first(), t.drop_first()))
    }
}

/// A Life-like rule, held as its table.
pub struct LifeLike {
    rules: [bool; 18],
}

impl View for LifeLike {
    type V = Seq<bool>;

    closed spec fn view(&self) -> Seq<bool> {
        self.rules@
    }
}

/// Reads the digits of `def` in `start..end` into the slots of the given
/// status; false if one of them is not a digit.
fn read_counts(def: &str, start: usize, end: usize, status: bool, rules: &mut [bool; 18]) -> (ok:
    bool)
    requires
        start <= end <= def@.len(),
        forall|i: int| 0 <= i < 18 ==> !old(rules)@[i],
    ensures
        ok == all_digits(def@.subrange(start as int, end as int)),
        ok ==> forall|i: int|
            0 <= i < 18 ==> final(rules)@[i] == ((i % 2 == 1) == status && lists_count(
                def@.subrange(start as int, end as int),
                i / 2,
            )),
{
    let ghost run = def@.subrange(start as int, end as int);
    let mut j: usize = start;
    while j < end
        invariant
            start <= j <= end <= def@.len(),
            run == def@.subrange(start as int, end as int),
            all_digits(run.subrange(0, j - start)),
            forall|i: int|
                0 <= i < 18 ==> rules@[i] == ((i % 2 == 1) == status && lists_count(
                    run.subrange(0, j - start),
                    i / 2,
                )),
        decreases end - j,
    {
        let c = def.get_char(j);
        if c < '0' || c > '9' {
            assert(!is_digit(run[j - start]));
            return false;
        }
        let n: usize = (c as u32 - '0' as u32) as usize;
        let ghost before = run.subrange(0, j - start);
        let ghost after = run.subrange(0, j - start + 1);
        assert(after == before.push(c));
        if n < 9 {
            let idx = encode_index(status, n);
            rules[idx] = true;
        }
        assert forall|i: int| 0 <= i < 18 implies rules@[i] == ((i % 2 == 1) == status
            && lists_count(after, i / 2)) by {
            if lists_count(after, i / 2) && !lists_count(before, i / 2) {
                let w = choose|w: int| 0 <= w < after.len() && digit_value(#[trigger] after[w]) == i / 2;
                assert(w == after.len() - 1);
            }
            if lists_count(before, i / 2) {
                let w = choose|w: int| 0 <= w < before.len() && digit_value(#[trigger] before[w]) == i / 2;
                assert(after[w] == before[w]);
            }
            if (i % 2 == 1) == status && digit_value(c) == i / 2 {
                assert(after[after.len() - 1] == c);
            }
        }
        j = j + 1;
    }
    assert(run.subrange(0, end - start) == run);
    true
}

impl LifeLike {
    /// Compiles a definition such as `"B3/S23"`: `b` or `B` and the birth
    /// counts, `/`, `s` or `S` and the survival counts.
    pub fn new(def: &str) -> (r: Result<LifeLike, RuleError>)
        ensures
            match compile_spec(def@) {
                Ok(table) => r matches Ok(rule) && rule@ == table,
                Err(e) => r == Err::<LifeLike, RuleError>(e),
            },
    {
        if !def.is_ascii() {
            return Err(RuleError::NotAscii);
        }
        let n = def.unicode_len();
        let mut p: usize = 0;
        while p < n && def.get_char(p) != '/'
            invariant
                n == def@.len(),
                p <= n,
                first_slash_from(def@, 0) == first_slash_from(def@, p as int),
            decreases n - p,
        {
            p = p + 1;
        }
        if p == n {
            return Err(RuleError::MissingSeparator);
        }
        let ghost s = def@;
        let ghost b = s.subrange(0, p as int);
        let ghost t = s.subrange(p + 1, n as int);
        if p == 0 || (def.get_char(0) != 'b' && def.get_char(0) != 'B') {
            return Err(RuleError::MissingBirthPrefix);
        }
        if p + 1 == n || (def.get_char(p + 1) != 's' && def.get_char(p + 1) != 'S') {
            return Err(RuleError::MissingSurvivalPrefix);
        }
        assert(b.drop_first() == s.subrange(1, p as int));
        assert(t.drop_first() == s.subrange(p + 2, n as int));
        let mut births = [false; 18];
        if !read_counts(def, 1, p, false, &mut births) {
            return Err(RuleError::BadBirthDigit);
        }
        let mut survivals = [false; 18];
        if !read_counts(def, p + 2, n, true, &mut survivals) {
            return Err(RuleError::BadSurvivalDigit);
        }
        let mut rules = [false; 18];
        let mut i: usize = 0;
        while i < 18
            invariant
                i <= 18,
                forall|k: int| 0 <= k < i ==> rules@[k] == (births@[k] || survivals@[k]),
            decreases 18 - i,
        {
            rules[i] = births[i] || survivals[i];
            i = i + 1;
        }
        let rule = LifeLike { rules };
        assert(rule@ =~= rule_table(b.drop_first(), t.drop_first()));
        Ok(rule)
    }

    /// The next status of a cell with the given status and number of live
    /// neighbors.
    pub fn simulate(&self, status: bool, neighbors: usize) -> (r: bool)
        requires
            neighbors <= 8,
        ensures
            r == self@[index_of(status, neighbors as int)],
    {
        self.rules[encode_index(status, neighbors)]
    }
}

} // verus!
