//! N-in / N-out channel routing: the row-major `[out][in]` gain matrix, the
//! stereo presets, and the rules that turn a routing configuration into a
//! matrix of the right shape.

use vstd::prelude::*;
use crate::config::{RoutingPreset, config_inputs, config_outputs};

verus! {

/// A gain matrix stored row-major as `[out][in]`. Its view is the rows.
#[derive(Debug, Clone)]
pub struct RoutingMatrix<T> {
    n_in: usize,
    n_out: usize,
    gains: Vec<T>,
}

impl<T> View for RoutingMatrix<T> {
    type V = Seq<Seq<T>>;

    closed spec fn view(&self) -> Seq<Seq<T>> {
        Seq::new(
            self.n_out as nat,
            |o: int| self.gains@.subrange(o * self.n_in, o * self.n_in + self.n_in),
        )
    }
}

proof fn lemma_cell(o: int, i: int, n_in: int, n_out: int)
    requires
        0 <= o < n_out,
        0 <= i < n_in,
    ensures
        0 <= o * n_in + i < n_out * n_in,
        o * n_in + n_in <= n_out * n_in,
        0 <= o * n_in,
{
    assert(o * n_in + n_in <= n_out * n_in) by (nonlinear_arith)
        requires
            o < n_out,
            n_in >= 0,
    ;
    assert(o * n_in >= 0) by (nonlinear_arith)
        requires
            o >= 0,
            n_in >= 0,
    ;
}

proof fn lemma_cell_distinct(o: int, i: int, p: int, j: int, n_in: int)
    requires
        0 <= o,
        0 <= p,
        0 <= i < n_in,
        0 <= j < n_in,
        o != p || i != j,
    ensures
        o * n_in + i != p * n_in + j,
{
    if o < p {
        assert(o * n_in + n_in <= p * n_in) by (nonlinear_arith)
            requires
                o < p,
                n_in >= 0,
        ;
    } else if p < o {
        assert(p * n_in + n_in <= o * n_in) by (nonlinear_arith)
            requires
                p < o,
                n_in >= 0,
        ;
    }
}

impl<T: Copy> RoutingMatrix<T> {
    pub closed spec fn wf(&self) -> bool {
        &&& self.gains@.len() == self.n_in * self.n_out
        &&& self.n_in * self.n_out <= usize::MAX
    }

    pub closed spec fn spec_n_in(&self) -> nat {
        self.n_in as nat
    }

    pub closed spec fn spec_n_out(&self) -> nat {
        self.n_out as nat
    }

    /// The gain from input `i` to output `o`.
    pub open spec fn cell(&self, o: int, i: int) -> T {
        self@[o][i]
    }

    proof fn lemma_row_len(&self, o: int)
        requires
            self.wf(),
            0 <= o < self.n_out,
        ensures
            self@[o].len() == self.n_in,
            0 <= o * self.n_in,
            o * self.n_in + self.n_in <= self.gains@.len(),
    {
        assert(o * self.n_in + self.n_in <= self.n_out * self.n_in) by (nonlinear_arith)
            requires
                o < self.n_out,
                self.n_in >= 0,
        ;
        assert(o * self.n_in >= 0) by (nonlinear_arith)
            requires
                o >= 0,
                self.n_in >= 0,
        ;
        assert(self.n_out * self.n_in == self.n_in * self.n_out) by (nonlinear_arith);
    }

    proof fn lemma_view_cell(&self, o: int, i: int)
        requires
            self.wf(),
            0 <= o < self.n_out,
            0 <= i < self.n_in,
        ensures
            self.cell(o, i) == self.gains@[o * self.n_in + i],
            self@[o].len() == self.n_in,
            0 <= o * self.n_in + i < self.gains@.len(),
    {
        lemma_cell(o, i, self.n_in as int, self.n_out as int);
        assert(self.n_out * self.n_in == self.n_in * self.n_out) by (nonlinear_arith);
    }

    /// An `n_out × n_in` matrix with every gain `zero`.
    pub fn new(n_in: usize, n_out: usize, zero: T) -> (m: Self)
        requires
            n_in * n_out <= usize::MAX,
        ensures
            m.wf(),
            m.spec_n_in() == n_in,
            m.spec_n_out() == n_out,
            m@.len() == n_out,
            forall|o: int| 0 <= o < n_out ==> #[trigger] m@[o].len() == n_in,
            forall|o: int, i: int| 0 <= o < n_out && 0 <= i < n_in ==> m.cell(o, i) == zero,
    {
        let total = n_in * n_out;
        let mut gains: Vec<T> = Vec::new();
        let mut k: usize = 0;
        while k < total
            invariant
                k <= total,
                gains@.len() == k,
                forall|j: int| 0 <= j < k ==> gains@[j] == zero,
            decreases total - k,
        {
            gains.push(zero);
            k = k + 1;
        }
        let m = RoutingMatrix { n_in, n_out, gains };
        assert forall|o: int| 0 <= o < n_out implies #[trigger] m@[o].len() == n_in by {
            m.lemma_row_len(o);
        }
        assert forall|o: int, i: int| 0 <= o < n_out && 0 <= i < n_in implies m.cell(o, i)
            == zero by {
            m.lemma_view_cell(o, i);
        }
        m
    }

    pub fn n_in(&self) -> (n: usize)
        ensures
            n == self.spec_n_in(),
    {
        self.n_in
    }

    pub fn n_out(&self) -> (n: usize)
        ensures
            n == self.spec_n_out(),
    {
        self.n_out
    }

    /// Set the gain from input `inp` to output `out`.
    pub fn set(&mut self, out: usize, inp: usize, gain: T)
        requires
            old(self).wf(),
            out < old(self).spec_n_out(),
            inp < old(self).spec_n_in(),
        ensures
            final(self).wf(),
            final(self).spec_n_in() == old(self).spec_n_in(),
            final(self).spec_n_out() == old(self).spec_n_out(),
            final(self)@ == old(self)@.update(
                out as int,
                old(self)@[out as int].update(inp as int, gain),
            ),
            forall|o: int| 0 <= o < final(self).spec_n_out() ==> #[trigger] final(self)@[o].len()
                == final(self).spec_n_in(),
            forall|o: int, i: int|
                0 <= o < final(self).spec_n_out() && 0 <= i < final(self).spec_n_in()
                    ==> final(self).cell(o, i) == if o == out && i == inp {
                    gain
                } else {
                    old(self).cell(o, i)
                },
    {
        let ghost before = *self;
        proof {
            self.lemma_view_cell(out as int, inp as int);
        }
        let idx = out * self.n_in + inp;
        self.gains.set(idx, gain);
        proof {
            let after = *self;
            let target = before@.update(out as int, before@[out as int].update(inp as int, gain));
            before.lemma_row_len(out as int);
            assert forall|o: int, i: int|
                0 <= o < after.n_out && 0 <= i < after.n_in implies after.cell(o, i) == if o
                == out && i == inp {
                gain
            } else {
                before.cell(o, i)
            } by {
                before.lemma_view_cell(o, i);
                after.lemma_view_cell(o, i);
                if o != out || i != inp {
                    lemma_cell_distinct(o, i, out as int, inp as int, after.n_in as int);
                }
            }
            assert forall|o: int| 0 <= o < after.n_out implies #[trigger] after@[o] =~= target[o] by {
                before.lemma_row_len(o);
                after.lemma_row_len(o);
                assert forall|i: int| 0 <= i < after.n_in implies after@[o][i] == target[o][i] by {
                    before.lemma_view_cell(o, i);
                    after.lemma_view_cell(o, i);
                    if o != out || i != inp {
                        lemma_cell_distinct(o, i, out as int, inp as int, after.n_in as int);
                    }
                }
            }
            assert(after@ =~= target);
            assert forall|o: int| 0 <= o < after.n_out implies #[trigger] after@[o].len()
                == after.n_in by {
                after.lemma_row_len(o);
            }
        }
    }

    /// The gain from input `inp` to output `out`.
    pub fn get(&self, out: usize, inp: usize) -> (g: T)
        requires
            self.wf(),
            out < self.spec_n_out(),
            inp < self.spec_n_in(),
        ensures
            g == self.cell(out as int, inp as int),
    {
        proof {
            self.lemma_view_cell(out as int, inp as int);
        }
        self.gains[out * self.n_in + inp]
    }

    /// Identity routing `out[i] = in[i]` of size `n × n`.
    pub fn identity(n: usize, zero: T, one: T) -> (m: Self)
        requires
            n * n <= usize::MAX,
        ensures
            m.wf(),
            m.spec_n_in() == n,
            m.spec_n_out() == n,
            forall|o: int, i: int|
                0 <= o < n && 0 <= i < n ==> m.cell(o, i) == if o == i {
                    one
                } else {
                    zero
                },
    {
        let mut m = Self::new(n, n, zero);
        let mut k: usize = 0;
        while k < n
            invariant
                m.wf(),
                m.spec_n_in() == n,
                m.spec_n_out() == n,
                m@.len() == n,
                forall|o: int| 0 <= o < n ==> #[trigger] m@[o].len() == n,
                k <= n,
                forall|o: int, i: int|
                    0 <= o < n && 0 <= i < n ==> m.cell(o, i) == if o == i && o < k {
                        one
                    } else {
                        zero
                    },
            decreases n - k,
        {
            m.set(k, k, one);
            k = k + 1;
        }
        m
    }

    /// The 2-in / 2-out matrix of a built-in routing preset (`Custom` has no
    /// fixed pattern and yields the stereo identity).
    pub fn preset(preset: RoutingPreset, zero: T, half: T, one: T) -> (m: Self)
        ensures
            m.wf(),
            m.spec_n_in() == 2,
            m.spec_n_out() == 2,
            forall|o: int, i: int|
                0 <= o < 2 && 0 <= i < 2 ==> m.cell(o, i) == match preset_gain(preset, o, i) {
                    Gain::Zero => zero,
                    Gain::Half => half,
                    Gain::Unity => one,
                },
    {
        let mut m = Self::new(2, 2, zero);
        match preset {
            RoutingPreset::Mono => {
                m.set(0, 0, half);
                m.set(0, 1, half);
                m.set(1, 0, half);
                m.set(1, 1, half);
            },
            RoutingPreset::LeftToBoth => {
                m.set(0, 0, one);
                m.set(1, 0, one);
            },
            RoutingPreset::RightToBoth => {
                m.set(0, 1, one);
                m.set(1, 1, one);
            },
            RoutingPreset::Swap => {
                m.set(0, 1, one);
                m.set(1, 0, one);
            },
            _ => {
                m.set(0, 0, one);
                m.set(1, 1, one);
            },
        }
        m
    }
}

/// A gain level of the built-in presets.
#[derive(Debug, Clone, Copy, PartialEq, Eq)]
pub enum Gain {
    Zero,
    Half,
    Unity,
}

/// The built-in presets, as a table: stereo passes L→L and R→R, mono feeds
/// `(L + R) / 2` to both, left/right-to-both feed one side to both outputs,
/// and swap exchanges the sides.
pub open spec fn preset_gain(preset: RoutingPreset, o: int, i: int) -> Gain {
    match preset {
        RoutingPreset::Mono => Gain::Half,
        RoutingPreset::LeftToBoth => if i == 0 {
            Gain::Unity
        } else {
            Gain::Zero
        },
        RoutingPreset::RightToBoth => if i == 1 {
            Gain::Unity
        } else {
            Gain::Zero
        },
        RoutingPreset::Swap => if o != i {
            Gain::Unity
        } else {
            Gain::Zero
        },
        _ => if o == i {
            Gain::Unity
        } else {
            Gain::Zero
        },
    }
}

/// Why a routing configuration cannot become a matrix.
#[derive(Debug, Clone, Copy, PartialEq, Eq)]
pub enum RoutingError {
    /// `preset = custom` without a `matrix`.
    MissingMatrix,
    /// The custom matrix has `rows` rows but `outputs` output channels are configured.
    RowCount { rows: usize, outputs: usize },
    /// The custom matrix rows differ in width.
    RaggedRows,
    /// A built-in preset was used with `outputs != 2` output channels.
    PresetNeedsStereo { outputs: usize },
}

/// Width of the first row, or 0 for no rows.
pub open spec fn first_width<T>(rows: Seq<Vec<T>>) -> nat {
    if rows.len() == 0 {
        0
    } else {
        rows[0]@.len()
    }
}

/// Every row has the width of the first.
pub open spec fn rectangular<T>(rows: Seq<Vec<T>>) -> bool {
    forall|o: int| 0 <= o < rows.len() ==> #[trigger] rows[o]@.len() == first_width(rows)
}

/// The first `k` rows all have the width of the first row.
pub open spec fn rows_ok_until<T>(rows: Seq<Vec<T>>, k: int) -> bool {
    forall|o: int| 0 <= o < k ==> #[trigger] rows[o]@.len() == first_width(rows)
}

/// The shape of a matrix that `build_matrix` built for `n_out` outputs: a
/// built-in preset is 2 by 2 and only built for two outputs; a custom matrix
/// has one row per output and is as wide as its first row.
pub open spec fn built_shape<T>(
    preset: RoutingPreset,
    custom: Option<Vec<Vec<T>>>,
    n_out: int,
    m_in: int,
    m_out: int,
) -> bool {
    if preset != RoutingPreset::Custom {
        n_out == 2 && m_in == 2 && m_out == 2
    } else {
        match custom {
            Some(rows) => rows@.len() == n_out && m_out == n_out && m_in == first_width(rows@),
            None => false,
        }
    }
}

/// Build the routing matrix for `n_out` output channels: a built-in preset
/// needs exactly two outputs; a custom matrix needs one row per output, all
/// rows of one width (that width is the number of inputs).
pub fn build_matrix<T: Copy>(
    preset: RoutingPreset,
    custom: &Option<Vec<Vec<T>>>,
    n_out: usize,
    zero: T,
    half: T,
    one: T,
) -> (r: Result<RoutingMatrix<T>, RoutingError>)
    requires
        (custom matches Some(rows) ==> first_width(rows@) * rows@.len() <= usize::MAX),
    ensures
        r matches Ok(m) ==> built_shape(
            preset,
            *custom,
            n_out as int,
            m.spec_n_in() as int,
            m.spec_n_out() as int,
        ),
        preset != RoutingPreset::Custom ==> (match r {
            Ok(m) => n_out == 2 && m.wf() && m.spec_n_in() == 2 && m.spec_n_out() == 2 && (forall|
                o: int,
                i: int,
            |
                0 <= o < 2 && 0 <= i < 2 ==> m.cell(o, i) == match preset_gain(preset, o, i) {
                    Gain::Zero => zero,
                    Gain::Half => half,
                    Gain::Unity => one,
                }),
            Err(e) => n_out != 2 && e == (RoutingError::PresetNeedsStereo { outputs: n_out }),
        }),
        preset == RoutingPreset::Custom ==> (match custom {
            None => r == Err::<RoutingMatrix<T>, RoutingError>(RoutingError::MissingMatrix),
            Some(rows) => if rows@.len() != n_out {
                r == Err::<RoutingMatrix<T>, RoutingError>(
                    (RoutingError::RowCount { rows: rows@.len() as usize, outputs: n_out }),
                )
            } else if !rectangular(rows@) {
                r == Err::<RoutingMatrix<T>, RoutingError>(RoutingError::RaggedRows)
            } else {
                r matches Ok(m) && m.wf() && m.spec_n_out() == n_out && m.spec_n_in()
                    == first_width(rows@) && forall|o: int, i: int|
                    0 <= o < n_out && 0 <= i < first_width(rows@) ==> m.cell(o, i)
                        == rows@[o]@[i]
            },
        }),
{
    match preset {
        RoutingPreset::Custom => {
            let rows = match custom {
                Some(rows) => rows,
                None => {
                    return Err(RoutingError::MissingMatrix);
                },
            };
            if rows.len() != n_out {
                return Err(RoutingError::RowCount { rows: rows.len(), outputs: n_out });
            }
            let n_in = if rows.len() == 0 {
                0
            } else {
                rows[0].len()
            };
            let mut o: usize = 0;
            #[verifier::loop_isolation(false)]
            while o < n_out
                invariant
                    n_out == rows@.len(),
                    n_in == first_width(rows@),
                    o <= n_out,
                    rows_ok_until(rows@, o as int),
                decreases n_out - o,
            {
                if rows[o].len() != n_in {
                    proof {
                        assert(rows@[o as int]@.len() != first_width(rows@));
                        assert(!rectangular(rows@));
                    }
                    return Err(RoutingError::RaggedRows);
                }
                o = o + 1;
            }
            let mut m = RoutingMatrix::new(n_in, n_out, zero);
            let mut p: usize = 0;
            while p < n_out
                invariant
                    n_out == rows@.len(),
                    n_in == first_width(rows@),
                    rectangular(rows@),
                    m.wf(),
                    m.spec_n_in() == n_in,
                    m.spec_n_out() == n_out,
                    m@.len() == n_out,
                    forall|q: int| 0 <= q < n_out ==> #[trigger] m@[q].len() == n_in,
                    p <= n_out,
                    forall|q: int, i: int|
                        0 <= q < p && 0 <= i < n_in ==> m.cell(q, i) == rows@[q]@[i],
                decreases n_out - p,
            {
                let row = &rows[p];
                let mut i: usize = 0;
                while i < n_in
                    invariant
                        n_out == rows@.len(),
                        n_in == first_width(rows@),
                        rectangular(rows@),
                        p < n_out,
                        row == rows@[p as int],
                        row@.len() == n_in,
                        m.wf(),
                        m.spec_n_in() == n_in,
                        m.spec_n_out() == n_out,
                        m@.len() == n_out,
                        forall|q: int| 0 <= q < n_out ==> #[trigger] m@[q].len() == n_in,
                        i <= n_in,
                        forall|q: int, j: int|
                            0 <= q < p && 0 <= j < n_in ==> m.cell(q, j) == rows@[q]@[j],
                        forall|j: int| 0 <= j < i ==> m.cell(p as int, j) == rows@[p as int]@[j],
                    decreases n_in - i,
                {
                    m.set(p, i, row[i]);
                    i = i + 1;
                }
                p = p + 1;
            }
            Ok(m)
        },
        _ => {
            if n_out != 2 {
                return Err(RoutingError::PresetNeedsStereo { outputs: n_out });
            }
            Ok(RoutingMatrix::preset(preset, zero, half, one))
        },
    }
}

/// Law: a routing matrix built for the outputs a configuration declares has
/// exactly the input and output counts the configuration declares
/// (`config_n_in`, `config_n_out`), so a pipeline compiled from it matches
/// the channel counts the engine derives from the configuration.
pub proof fn law_matrix_matches_config<T: Copy>(
    preset: RoutingPreset,
    custom: Option<Vec<Vec<T>>>,
    n_channels: nat,
    m: RoutingMatrix<T>,
)
    requires
        built_shape(
            preset,
            custom,
            config_outputs(n_channels as int),
            m.spec_n_in() as int,
            m.spec_n_out() as int,
        ),
    ensures
        m.spec_n_in() == config_inputs(preset, custom),
        m.spec_n_out() == config_outputs(n_channels as int),
{
}

} // verus!
