//! The flatness map: a per-cell habitability score derived from the local
//! elevation gradient. The gradient estimation and the gradient-to-score
//! policy are the caller's: each cell arrives with an optional candidate
//! score (absent where the gradient is undefined or the policy excludes
//! the cell). The core keeps a cell when it is at or above sea level and
//! has a candidate, and, when a minimum neighbor count is demanded,
//! re-filters to the cells enough of whose Voronoi neighbors are also
//! kept by the first pass — removing isolated habitable specks.

use vstd::prelude::*;

use crate::codec::{
    count_ok, dec_digits, dec_signed, digits_val, id_ok, lemma_dec_round_trip,
    lemma_dec_signed_round_trip, parse_dec_i64, parse_dec_u64, signed_val, to_dec_i64, to_dec_u64,
    token_views,
};
use crate::field::CellId;
use crate::sums::sum_over;

verus! {

/// One cell of the flatness computation: its identity, elevation sample,
/// the caller's candidate score, and the indices of its Voronoi
/// neighbors within the input.
pub struct FlatnessInput {
    pub id: CellId,
    pub elevation: i64,
    pub candidate: Option<u64>,
    pub neighbors: Vec<usize>,
}

/// The flatness map: the kept cells with their scores, in input order.
pub struct FlatnessMap {
    pub cells: Vec<(CellId, u64)>,
}

/// A cell passes the first pass: at or above sea level, with a candidate
/// score.
pub open spec fn scored(inputs: Seq<FlatnessInput>, sea_level: i64, c: int) -> bool {
    &&& inputs[c].elevation >= sea_level
    &&& inputs[c].candidate is Some
}

/// How many of the cell's neighbors pass the first pass.
pub open spec fn scored_neighbors(inputs: Seq<FlatnessInput>, sea_level: i64, c: int) -> int {
    sum_over(
        inputs[c].neighbors@.len(),
        |j: int| if scored(inputs, sea_level, inputs[c].neighbors@[j] as int) {
            1
        } else {
            0
        },
    )
}

/// A cell is kept: it passes the first pass, and, when a minimum neighbor
/// count is demanded, enough of its neighbors pass it too.
pub open spec fn kept(
    inputs: Seq<FlatnessInput>,
    minimum_neighbor_num: usize,
    sea_level: i64,
    c: int,
) -> bool {
    &&& scored(inputs, sea_level, c)
    &&& (minimum_neighbor_num == 0 || scored_neighbors(inputs, sea_level, c)
        >= minimum_neighbor_num)
}

/// The kept cells with their scores among the first `k` inputs.
pub open spec fn flat_entries(
    inputs: Seq<FlatnessInput>,
    minimum_neighbor_num: usize,
    sea_level: i64,
    k: nat,
) -> Seq<(CellId, u64)>
    decreases k,
{
    if k == 0 {
        Seq::empty()
    } else {
        let prev = flat_entries(inputs, minimum_neighbor_num, sea_level, (k - 1) as nat);
        if kept(inputs, minimum_neighbor_num, sea_level, k - 1) {
            prev.push((inputs[k - 1].id, inputs[k - 1].candidate->0))
        } else {
            prev
        }
    }
}

impl FlatnessMap {
    /// Build the flatness map: keep exactly the cells at or above sea
    /// level whose candidate is defined and, when a minimum neighbor
    /// count is demanded, enough of whose neighbors are likewise defined.
    pub fn new(
        inputs: &Vec<FlatnessInput>,
        minimum_neighbor_num: usize,
        sea_level: i64,
    ) -> (m: FlatnessMap)
        requires
            forall|c: int, j: int|
                0 <= c < inputs@.len() && 0 <= j < (#[trigger] inputs@[c]).neighbors@.len() ==> (
                #[trigger] inputs@[c].neighbors@[j]) < inputs@.len(),
        ensures
            m.cells@ == flat_entries(
                inputs@,
                minimum_neighbor_num,
                sea_level,
                inputs@.len() as nat,
            ),
    {
        let n = inputs.len();
        let mut cells: Vec<(CellId, u64)> = Vec::new();
        let mut c: usize = 0;
        while c < n
            invariant
                n == inputs@.len(),
                c <= n,
                forall|x: int, j: int|
                    0 <= x < n && 0 <= j < (#[trigger] inputs@[x]).neighbors@.len() ==> (
                    #[trigger] inputs@[x].neighbors@[j]) < n,
                cells@ == flat_entries(inputs@, minimum_neighbor_num, sea_level, c as nat),
            decreases n - c,
        {
            let input = &inputs[c];
            let passes: bool = match input.candidate {
                Option::Some(score) => {
                    if input.elevation >= sea_level {
                        if minimum_neighbor_num == 0 {
                            true
                        } else {
                            let mut count: usize = 0;
                            let mut j: usize = 0;
                            let nb_len = input.neighbors.len();
                            while j < nb_len
                                invariant
                                    n == inputs@.len(),
                                    c < n,
                                    forall|x: int, jj: int|
                                        0 <= x < n && 0 <= jj < (
                                        #[trigger] inputs@[x]).neighbors@.len() ==> (
                                        #[trigger] inputs@[x].neighbors@[jj]) < n,
                                    input == inputs@[c as int],
                                    nb_len == input.neighbors@.len(),
                                    j <= nb_len,
                                    count <= j,
                                    count as int == sum_over(
                                        j as nat,
                                        |jj: int| if scored(
                                            inputs@,
                                            sea_level,
                                            input.neighbors@[jj] as int,
                                        ) {
                                            1
                                        } else {
                                            0
                                        },
                                    ),
                                decreases nb_len - j,
                            {
                                let nb = input.neighbors[j];
                                let nbc = &inputs[nb];
                                if nbc.elevation >= sea_level && nbc.candidate.is_some() {
                                    count = count + 1;
                                }
                                j = j + 1;
                            }
                            proof {
                                assert(count as int == scored_neighbors(
                                    inputs@,
                                    sea_level,
                                    c as int,
                                ));
                            }
                            count >= minimum_neighbor_num
                        }
                    } else {
                        false
                    }
                },
                Option::None => false,
            };
            if passes {
                let score = match input.candidate {
                    Option::Some(s) => s,
                    Option::None => 0,
                };
                cells.push((input.id, score));
            }
            c = c + 1;
        }
        FlatnessMap { cells }
    }

    /// The kept cells with their scores, in input order.
    pub fn map(&self) -> (r: &Vec<(CellId, u64)>)
        ensures
            r == &self.cells,
    {
        &self.cells
    }
}

/// The three text tokens of one flatness entry: the cell identity, then
/// the score as decimal text.
pub open spec fn flat_tokens(entry: (CellId, u64)) -> Seq<Seq<char>> {
    seq![
        dec_signed(entry.0.ix as int),
        dec_signed(entry.0.iy as int),
        dec_digits(entry.1 as nat),
    ]
}

/// The entry denoted by three tokens, if they are well-formed.
pub open spec fn parse_flat(toks: Seq<Seq<char>>) -> Option<(CellId, u64)> {
    if toks.len() != 3 {
        Option::None
    } else if !(id_ok(toks[0]) && id_ok(toks[1]) && count_ok(toks[2])) {
        Option::None
    } else {
        Option::Some(
            (
                CellId { ix: signed_val(toks[0]) as i64, iy: signed_val(toks[1]) as i64 },
                digits_val(toks[2]) as u64,
            ),
        )
    }
}

/// Reading back the tokens of a flatness entry gives exactly that entry.
pub proof fn lemma_flat_round_trip(entry: (CellId, u64))
    ensures
        parse_flat(flat_tokens(entry)) == Option::Some(entry),
{
    lemma_dec_signed_round_trip(entry.0.ix as int);
    lemma_dec_signed_round_trip(entry.0.iy as int);
    lemma_dec_round_trip(entry.1 as nat);
}

impl FlatnessMap {
    /// The persisted text form of the map: three tokens per kept cell.
    pub fn save_tokens(&self) -> (out: Vec<Vec<String>>)
        ensures
            out@.len() == self.cells@.len(),
            forall|i: int|
                0 <= i < out@.len() ==> token_views((#[trigger] out@[i])@) == flat_tokens(
                    self.cells@[i],
                ),
    {
        let n = self.cells.len();
        let mut out: Vec<Vec<String>> = Vec::new();
        let mut i: usize = 0;
        while i < n
            invariant
                n == self.cells@.len(),
                i <= n,
                out@.len() == i,
                forall|k: int|
                    0 <= k < i ==> token_views((#[trigger] out@[k])@) == flat_tokens(
                        self.cells@[k],
                    ),
            decreases n - i,
        {
            let entry = &self.cells[i];
            let mut toks: Vec<String> = Vec::new();
            toks.push(to_dec_i64(entry.0.ix));
            toks.push(to_dec_i64(entry.0.iy));
            toks.push(to_dec_u64(entry.1));
            proof {
                assert(token_views(toks@) =~= flat_tokens(self.cells@[i as int]));
            }
            out.push(toks);
            i = i + 1;
        }
        out
    }

    /// Load a flatness map from persisted token lines. Fails exactly when
    /// some line's tokens are malformed.
    pub fn load_tokens(lines: &Vec<Vec<String>>) -> (r: Option<FlatnessMap>)
        ensures
            (r is Some) <==> (forall|i: int|
                0 <= i < lines@.len() ==> parse_flat(token_views(#[trigger] lines@[i]@)) is Some),
            (r matches Option::Some(m) ==> {
                &&& m.cells@.len() == lines@.len()
                &&& forall|i: int|
                    0 <= i < lines@.len() ==> Option::Some(#[trigger] m.cells@[i]) == parse_flat(
                        token_views(lines@[i]@),
                    )
            }),
    {
        let n = lines.len();
        let mut cells: Vec<(CellId, u64)> = Vec::new();
        let mut i: usize = 0;
        while i < n
            invariant
                n == lines@.len(),
                i <= n,
                cells@.len() == i,
                forall|k: int|
                    0 <= k < i ==> Option::Some(#[trigger] cells@[k]) == parse_flat(
                        token_views(lines@[k]@),
                    ),
            decreases n - i,
        {
            let line = &lines[i];
            if line.len() != 3 {
                return Option::None;
            }
            let ix = parse_dec_i64(line[0].as_str());
            let iy = parse_dec_i64(line[1].as_str());
            let score = parse_dec_u64(line[2].as_str());
            match (ix, iy, score) {
                (Option::Some(ix), Option::Some(iy), Option::Some(score)) => {
                    cells.push((CellId { ix, iy }, score));
                },
                _ => {
                    return Option::None;
                },
            }
            i = i + 1;
        }
        proof {
            assert forall|k: int| 0 <= k < lines@.len() implies parse_flat(
                token_views(#[trigger] lines@[k]@),
            ) is Some by {
                assert(Option::Some(cells@[k]) == parse_flat(token_views(lines@[k]@)));
            }
        }
        Option::Some(FlatnessMap { cells })
    }
}

} // verus!
