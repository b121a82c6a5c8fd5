//! Where the distances of an instance come from: a table of coordinates with
//! a rule for rounding, or a full matrix.

use vstd::prelude::*;
use crate::model::distance::{
    compute_distance_euc, coord_distance, lemma_distance_symmetric, Rounding,
};
use crate::model::layout::{is_square, is_symmetric, matrix_view};
use crate::model::utils::has_square_shape;
use crate::savings_algorithm::ordering::Saving;
use crate::tsplib_parser::custom_types::{Coord, MAX_UNITS};

verus! {

/// The source of the distances between the nodes of an instance.
pub enum DistanceSource<'a> {
    /// The coordinates of the nodes, and how the planar distance is rounded.
    Coordinates(&'a Vec<Coord>, Rounding),
    /// The full matrix of the distances.
    Matrix(&'a Vec<Vec<usize>>),
}

/// What a source of distances holds.
pub enum SourceModel {
    /// The coordinates of the nodes, and how the planar distance is rounded.
    Coordinates(Seq<Coord>, Rounding),
    /// The full matrix of the distances.
    Matrix(Seq<Seq<usize>>),
}

impl<'a> View for DistanceSource<'a> {
    type V = SourceModel;

    open spec fn view(&self) -> SourceModel {
        match *self {
            DistanceSource::Coordinates(coords, rounding) => SourceModel::Coordinates(
                coords@,
                rounding,
            ),
            DistanceSource::Matrix(m) => SourceModel::Matrix(matrix_view(m)),
        }
    }
}

impl SourceModel {
    /// The number of nodes, the depot counted.
    pub open spec fn node_count(self) -> int {
        match self {
            SourceModel::Coordinates(coords, _) => coords.len() as int,
            SourceModel::Matrix(m) => m.len() as int,
        }
    }

    /// Every coordinate is in range, or the matrix is square.
    pub open spec fn is_well_formed(self) -> bool {
        match self {
            SourceModel::Coordinates(coords, _) => forall|k: int|
                0 <= k < coords.len() ==> (#[trigger] coords[k]).in_range(),
            SourceModel::Matrix(m) => is_square(m, m.len() as int),
        }
    }

    /// The distance from node `i` to node `j`.
    pub open spec fn distance(self, i: int, j: int) -> int {
        match self {
            SourceModel::Coordinates(coords, rounding) => coord_distance(
                coords[i],
                coords[j],
                rounding,
            ),
            SourceModel::Matrix(m) => m[i][j] as int,
        }
    }
}

/// The distance from `i` to `j` is the distance from `j` to `i`, for
/// coordinates and for a matrix that is symmetric.
pub proof fn lemma_source_distance_symmetric(src: SourceModel, i: int, j: int)
    requires
        0 <= i < src.node_count(),
        0 <= j < src.node_count(),
        src matches SourceModel::Matrix(m) ==> is_symmetric(m),
    ensures
        src.distance(i, j) == src.distance(j, i),
{
    match src {
        SourceModel::Coordinates(coords, rounding) => {
            lemma_distance_symmetric(coords[i], coords[j], rounding);
        },
        SourceModel::Matrix(m) => {
            assert(m[i][j] == m[j][i]);
        },
    }
}

/// What is saved by serving two customers on one route and not on two, where
/// the depot is `to_first` and `to_second` away from them and they are
/// `between` apart: the sum of the first two less the third, and nothing where
/// that is negative. A saving above the largest number is that number.
pub open spec fn saving_value(to_first: int, to_second: int, between: int) -> usize {
    let gain = to_first + to_second - between;
    if gain <= 0 {
        0
    } else if gain > usize::MAX {
        usize::MAX
    } else {
        gain as usize
    }
}

/// The saving of the customers `i` and `j`.
pub open spec fn saving_of(src: SourceModel, i: int, j: int) -> Saving {
    (
        i as usize,
        j as usize,
        saving_value(src.distance(0, i), src.distance(0, j), src.distance(i, j)),
    )
}

/// The savings of customer `i` with the `width` customers that follow it.
pub open spec fn savings_row(src: SourceModel, i: int, width: int) -> Seq<Saving> {
    Seq::new(width as nat, |k: int| saving_of(src, i, i + 1 + k))
}

/// The savings of the pairs `(i, j)` with `1 <= i < rows` and `i < j < n`,
/// by `i` and then by `j`.
pub open spec fn savings_upto(src: SourceModel, n: int, rows: int) -> Seq<Saving>
    decreases rows,
{
    if rows <= 1 {
        Seq::empty()
    } else {
        savings_upto(src, n, rows - 1) + savings_row(src, rows - 1, n - rows)
    }
}

/// The savings of all pairs of customers `(i, j)` with `i < j`, by `i` and
/// then by `j`.
pub open spec fn savings_list(src: SourceModel) -> Seq<Saving> {
    savings_upto(src, src.node_count(), src.node_count())
}

impl<'a> DistanceSource<'a> {
    /// The number of nodes, the depot counted.
    pub fn node_count(&self) -> (n: usize)
        ensures
            n == self@.node_count(),
    {
        match self {
            DistanceSource::Coordinates(coords, _) => coords.len(),
            DistanceSource::Matrix(m) => m.len(),
        }
    }

    /// Whether every coordinate is in range, or the matrix is square.
    pub fn check(&self) -> (ok: bool)
        ensures
            ok == self@.is_well_formed(),
    {
        match self {
            DistanceSource::Coordinates(coords, rounding) => {
                let mut k: usize = 0;
                while k < coords.len()
                    invariant
                        k <= coords.len(),
                        self@ == SourceModel::Coordinates(coords@, *rounding),
                        forall|q: int| 0 <= q < k ==> (#[trigger] coords@[q]).in_range(),
                    decreases coords.len() - k,
                {
                    let x = coords[k].get_x();
                    let y = coords[k].get_y();
                    if x < -MAX_UNITS || x > MAX_UNITS || y < -MAX_UNITS || y > MAX_UNITS {
                        assert(self@->Coordinates_0 == coords@);
                        assert(self@.is_well_formed() ==> coords@[k as int].in_range());
                        return false;
                    }
                    k += 1;
                }
                true
            },
            DistanceSource::Matrix(m) => has_square_shape(m, m.len()),
        }
    }

    /// The distance from node `i` to node `j`.
    pub fn distance(&self, i: usize, j: usize) -> (d: usize)
        requires
            self@.is_well_formed(),
            i < self@.node_count(),
            j < self@.node_count(),
        ensures
            d == self@.distance(i as int, j as int),
    {
        match self {
            DistanceSource::Coordinates(coords, rounding) => compute_distance_euc(
                &coords[i],
                &coords[j],
                *rounding,
            ),
            DistanceSource::Matrix(m) => {
                proof {
                    assert(matrix_view(m)[i as int].len() == m@.len());
                    assert(matrix_view(m)[i as int] == m@[i as int]@);
                }
                m[i][j]
            },
        }
    }

    /// What is saved by serving the customers `i` and `j` on one route.
    pub fn saving(&self, i: usize, j: usize) -> (s: Saving)
        requires
            self@.is_well_formed(),
            0 < self@.node_count(),
            i < self@.node_count(),
            j < self@.node_count(),
        ensures
            s == saving_of(self@, i as int, j as int),
    {
        let to_first = self.distance(0, i) as u128;
        let to_second = self.distance(0, j) as u128;
        let between = self.distance(i, j) as u128;
        let sum = to_first + to_second;
        let value: usize = if sum <= between {
            0
        } else if sum - between > usize::MAX as u128 {
            usize::MAX
        } else {
            (sum - between) as usize
        };
        (i, j, value)
    }

    /// Puts the savings of all pairs of customers behind those of `savings`.
    pub fn push_savings(&self, savings: &mut Vec<Saving>)
        requires
            self@.is_well_formed(),
        ensures
            final(savings)@ == old(savings)@ + savings_list(self@),
    {
        let n = self.node_count();
        let ghost before = savings@;
        let mut i: usize = 1;
        assert(savings@ =~= before + savings_upto(self@, n as int, 1));
        while i < n
            invariant
                1 <= i,
                n == self@.node_count(),
                self@.is_well_formed(),
                i <= n ==> savings@ == before + savings_upto(self@, n as int, i as int),
                i > n ==> n == 0 && savings@ == before,
            decreases n - i,
        {
            let ghost row_start = savings@;
            let mut j: usize = i + 1;
            assert(savings@ =~= row_start + savings_row(self@, i as int, 0));
            while j < n
                invariant
                    i < j <= n,
                    n == self@.node_count(),
                    self@.is_well_formed(),
                    savings@ == row_start + savings_row(self@, i as int, j - i - 1),
                decreases n - j,
            {
                let s = self.saving(i, j);
                savings.push(s);
                proof {
                    assert(savings@ =~= row_start + savings_row(self@, i as int, j - i));
                }
                j += 1;
            }
            proof {
                assert(savings@ =~= before + (savings_upto(self@, n as int, i as int)
                    + savings_row(self@, i as int, n - i - 1)));
            }
            i += 1;
        }
        proof {
            if n == 0 {
                assert(savings_upto(self@, 0, 0) =~= Seq::<Saving>::empty());
                assert(savings@ =~= before + savings_list(self@));
            } else {
                assert(i == n);
            }
        }
    }
}

} // verus!
