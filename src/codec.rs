//! The packed neighborhood code: the eight neighbors of a cell as the bits
//! of one byte, bit `k` for the `k`-th neighbor in clockwise order from the
//! top left.

use vstd::prelude::*;

verus! {

/// One as a bit for `true`, zero for `false`.
pub open spec fn bit(b: bool) -> u8 {
    if b {
        1
    } else {
        0
    }
}

/// Whether bit `k` of `code` is set.
pub open spec fn code_bit(code: u8, k: int) -> bool {
    (code >> (k as u8)) & 1 == 1
}

/// The eight neighbor states that a code stands for.
pub open spec fn unpack(code: u8) -> Seq<bool> {
    Seq::new(8, |k: int| code_bit(code, k))
}

/// The code of eight neighbor states.
pub open spec fn pack(s: Seq<bool>) -> u8 {
    bit(s[0]) | bit(s[1]) << 1u8 | bit(s[2]) << 2u8 | bit(s[3]) << 3u8 | bit(s[4]) << 4u8 | bit(
        s[5],
    ) << 5u8 | bit(s[6]) << 6u8 | bit(s[7]) << 7u8
}

/// The number of `true` entries of a sequence.
pub open spec fn count_alive(s: Seq<bool>) -> nat
    decreases s.len(),
{
    if s.len() == 0 {
        0
    } else {
        count_alive(s.drop_last()) + (if s.last() {
            1nat
        } else {
            0nat
        })
    }
}

/// The number of live neighbors in a code.
pub open spec fn code_alive(code: u8) -> nat {
    count_alive(unpack(code))
}

proof fn lemma_bit_of_code(code: u8, k: u8)
    requires
        k < 8,
    ensures
        bit(code_bit(code, k as int)) == (code >> k) & 1,
{
    assert(((code >> k) & 1) != 1 ==> ((code >> k) & 1) == 0) by (bit_vector);
}

/// Unpacking a byte and packing it again gives the byte back.
pub proof fn lemma_pack_unpack(code: u8)
    ensures
        pack(unpack(code)) == code,
{
    let s = unpack(code);
    lemma_bit_of_code(code, 0);
    lemma_bit_of_code(code, 1);
    lemma_bit_of_code(code, 2);
    lemma_bit_of_code(code, 3);
    lemma_bit_of_code(code, 4);
    lemma_bit_of_code(code, 5);
    lemma_bit_of_code(code, 6);
    lemma_bit_of_code(code, 7);
    assert(code == ((code >> 0u8) & 1) | ((code >> 1u8) & 1) << 1u8 | ((code >> 2u8) & 1) << 2u8
        | ((code >> 3u8) & 1) << 3u8 | ((code >> 4u8) & 1) << 4u8 | ((code >> 5u8) & 1) << 5u8
        | ((code >> 6u8) & 1) << 6u8 | ((code >> 7u8) & 1) << 7u8) by (bit_vector);
}

/// Packing eight states and unpacking the code gives the states back.
pub proof fn lemma_unpack_pack(s: Seq<bool>)
    requires
        s.len() == 8,
    ensures
        unpack(pack(s)) == s,
{
    let b0 = bit(s[0]);
    let b1 = bit(s[1]);
    let b2 = bit(s[2]);
    let b3 = bit(s[3]);
    let b4 = bit(s[4]);
    let b5 = bit(s[5]);
    let b6 = bit(s[6]);
    let b7 = bit(s[7]);
    let c = pack(s);
    assert(c == b0 | b1 << 1u8 | b2 << 2u8 | b3 << 3u8 | b4 << 4u8 | b5 << 5u8 | b6 << 6u8 | b7
        << 7u8);
    assert(b0 <= 1 && b1 <= 1 && b2 <= 1 && b3 <= 1 && b4 <= 1 && b5 <= 1 && b6 <= 1 && b7 <= 1
        && c == b0 | b1 << 1u8 | b2 << 2u8 | b3 << 3u8 | b4 << 4u8 | b5 << 5u8 | b6 << 6u8 | b7
        << 7u8 ==> (c >> 0u8) & 1 == b0 && (c >> 1u8) & 1 == b1 && (c >> 2u8) & 1 == b2 && (c
        >> 3u8) & 1 == b3 && (c >> 4u8) & 1 == b4 && (c >> 5u8) & 1 == b5 && (c >> 6u8) & 1
        == b6 && (c >> 7u8) & 1 == b7) by (bit_vector);
    assert(unpack(c) =~= s);
}

/// The round trip in both directions: every byte, and every sequence of
/// eight neighbor states, survives decoding and encoding unchanged.
pub proof fn lemma_code_round_trip(code: u8, s: Seq<bool>)
    requires
        s.len() == 8,
    ensures
        pack(unpack(code)) == code,
        unpack(pack(s)) == s,
{
    lemma_pack_unpack(code);
    lemma_unpack_pack(s);
}

/// Why a sequence of neighbor states could not be packed.
#[derive(Debug, Clone, Copy, PartialEq, Eq, Structural)]
pub enum CodecError {
    /// The sequence does not hold exactly eight states; its length is given.
    WrongLength(usize),
}

/// The eight neighbors of a cell, packed into one byte.
#[derive(Debug, Clone, Copy, PartialEq, Eq, Structural)]
pub struct MooreNeighborhood {
    pub code: u8,
}

impl View for MooreNeighborhood {
    type V = u8;

    open spec fn view(&self) -> u8 {
        self.code
    }
}

impl MooreNeighborhood {
    /// The neighborhood with the given code.
    pub fn from_code(code: u8) -> (r: MooreNeighborhood)
        ensures
            r@ == code,
    {
        MooreNeighborhood { code }
    }

    /// The code of this neighborhood.
    pub fn code(&self) -> (r: u8)
        ensures
            r == self@,
    {
        self.code
    }

    /// Packs eight neighbor states, in clockwise order from the top left;
    /// fails on any other number of states.
    pub fn from_bools(cells: &[bool]) -> (r: Result<MooreNeighborhood, CodecError>)
        ensures
            cells@.len() == 8 ==> r == Ok::<MooreNeighborhood, CodecError>(
                MooreNeighborhood { code: pack(cells@) },
            ),
            cells@.len() != 8 ==> r == Err::<MooreNeighborhood, CodecError>(
                CodecError::WrongLength(cells@.len() as usize),
            ),
    {
        if cells.len() != 8 {
            return Err(CodecError::WrongLength(cells.len()));
        }
        let code = bit_of(cells[0]) | bit_of(cells[1]) << 1u8 | bit_of(cells[2]) << 2u8 | bit_of(
            cells[3],
        ) << 3u8 | bit_of(cells[4]) << 4u8 | bit_of(cells[5]) << 5u8 | bit_of(cells[6]) << 6u8
            | bit_of(cells[7]) << 7u8;
        Ok(MooreNeighborhood { code })
    }

    /// Packs eight neighbor states, in clockwise order from the top left.
    pub fn from_array(cells: &[bool; 8]) -> (r: MooreNeighborhood)
        ensures
            r@ == pack(cells@),
    {
        let code = bit_of(cells[0]) | bit_of(cells[1]) << 1u8 | bit_of(cells[2]) << 2u8 | bit_of(
            cells[3],
        ) << 3u8 | bit_of(cells[4]) << 4u8 | bit_of(cells[5]) << 5u8 | bit_of(cells[6]) << 6u8
            | bit_of(cells[7]) << 7u8;
        MooreNeighborhood { code }
    }

    /// The number of live neighbors.
    pub fn alive_count(&self) -> (r: usize)
        ensures
            r == code_alive(self@),
            r <= 8,
    {
        let cells = self.to_bools();
        let mut count: usize = 0;
        let mut k: usize = 0;
        while k < 8
            invariant
                k <= 8,
                cells@ == unpack(self@),
                count == count_alive(cells@.subrange(0, k as int)),
                count <= k,
            decreases 8 - k,
        {
            assert(cells@.subrange(0, k + 1).drop_last() == cells@.subrange(0, k as int));
            if cells[k] {
                count = count + 1;
            }
            k = k + 1;
        }
        assert(cells@.subrange(0, 8) == cells@);
        count
    }

    /// The eight neighbor states, in clockwise order from the top left.
    pub fn to_bools(&self) -> (r: [bool; 8])
        ensures
            r@ == unpack(self@),
    {
        let c = self.code;
        let r = [
            (c >> 0u8) & 1 == 1,
            (c >> 1u8) & 1 == 1,
            (c >> 2u8) & 1 == 1,
            (c >> 3u8) & 1 == 1,
            (c >> 4u8) & 1 == 1,
            (c >> 5u8) & 1 == 1,
            (c >> 6u8) & 1 == 1,
            (c >> 7u8) & 1 == 1,
        ];
        assert(r@ =~= unpack(c));
        r
    }
}

fn bit_of(b: bool) -> (r: u8)
    ensures
        r == bit(b),
{
    if b {
        1
    } else {
        0
    }
}

} // verus!
