//! The neural controller: layers of fixed-point weights and biases with a
//! closed choice of activation, evaluated exactly; random initialisation;
//! and the genetic operators (single-point crossover, two-stage mutation)
//! that reproduction applies to its parameters.

use crate::geom::{abs_i, add_clamped, clamp_spec, div_trunc, div_trunc_i128, lemma_abs_mul_le,
    lemma_tdiv_abs_le, tdiv};
use crate::rng::random_in;
use vstd::prelude::*;

verus! {

/// Magnitude bound kept on every weight and bias. Fresh genes are drawn
/// well inside it; a perturbation that would leave it saturates at the
/// edge, so the fixed-point evaluation stays in range.
pub const WEIGHT_LIMIT: i64 = 8000;

/// Magnitude bound kept on every activation value flowing between layers:
/// a neuron's weighted sum saturates here. It is far beyond what the
/// normalized sensor inputs can produce.
pub const VALUE_LIMIT: i64 = 1_000_000_000_000_000;

/// Largest accepted layer width.
pub const MAX_DIM: usize = 40_000;

/// Denominator of the mutation rates: a rate of `r` fires with
/// probability `r / 1000`.
pub const RATE_DEN: i64 = 1000;

/// Per-layer activation, a closed choice dispatched by match.
#[derive(Clone, Copy, PartialEq, Eq, Structural, Debug)]
pub enum Activation {
    Identity,
    Sigmoid,
}

/// One layer: a weight matrix (rows are outputs), a bias vector of the
/// same length as the row count, and an activation.
#[derive(Clone, Debug)]
pub struct Layer {
    pub weights: Vec<Vec<i64>>,
    pub bias: Vec<i64>,
    pub activation: Activation,
}

/// A feed-forward network: its layers, applied in order.
#[derive(Clone, Debug)]
pub struct Network {
    pub layers: Vec<Layer>,
}

/// Bounded rational approximation of the logistic function `1/(1+e^-x)`,
/// in milli-units: `500 + 500 x / (1000 + |x|)`. Exactly 500 at 0,
/// strictly inside `[0, 1000]`, monotone, with the right limits.
pub open spec fn sigmoid_spec(x: int) -> int {
    500 + tdiv(500 * x, 1000 + abs_i(x))
}

/// Weighted sum of the first `n` inputs, exact.
pub open spec fn wsum(w: Seq<i64>, x: Seq<i64>, n: int) -> int
    decreases n,
{
    if n <= 0 {
        0
    } else {
        wsum(w, x, n - 1) + w[n - 1] * x[n - 1]
    }
}

/// Value of one neuron before activation: bias plus the weighted sum
/// scaled back to milli-units, saturated at the value range.
pub open spec fn neuron_spec(w: Seq<i64>, x: Seq<i64>, b: int) -> int {
    clamp_spec(
        b + tdiv(wsum(w, x, w.len() as int), 1000),
        -(VALUE_LIMIT as int),
        VALUE_LIMIT as int,
    )
}

/// The activation applied to a neuron value.
pub open spec fn act_spec(a: Activation, v: int) -> int {
    match a {
        Activation::Identity => v,
        Activation::Sigmoid => sigmoid_spec(v),
    }
}

/// The logistic activation in milli-units.
pub fn sigmoid(x: i64) -> (r: i64)
    requires
        abs_i(x as int) <= VALUE_LIMIT as int,
    ensures
        r == sigmoid_spec(x as int),
        0 <= r <= 1000,
{
    let a: i64 = if x >= 0 {
        x
    } else {
        -x
    };
    let num: i64 = 500 * x;
    let den: i64 = 1000 + a;
    proof {
        lemma_tdiv_abs_le(500 * (x as int), den as int, 500);
    }
    500 + div_trunc(num, den)
}

impl Layer {
    /// Number of inputs the layer consumes.
    pub open spec fn in_dim(self) -> int {
        self.weights@[0]@.len() as int
    }

    /// Number of outputs the layer produces.
    pub open spec fn out_dim(self) -> int {
        self.weights@.len() as int
    }

    /// Well-formedness: at least one row, rectangular, bias per row, and
    /// every parameter within the weight range.
    pub open spec fn wf(self) -> bool {
        &&& 1 <= self.weights@.len() <= MAX_DIM
        &&& self.bias@.len() == self.weights@.len()
        &&& 1 <= self.in_dim() <= MAX_DIM
        &&& forall|o: int|
            0 <= o < self.weights@.len() ==> (#[trigger] self.weights@[o])@.len() == self.in_dim()
        &&& forall|o: int, i: int|
            0 <= o < self.weights@.len() && 0 <= i < self.in_dim() ==> abs_i(
                (#[trigger] self.weights@[o]@[i]) as int,
            ) <= WEIGHT_LIMIT as int
        &&& forall|o: int|
            0 <= o < self.bias@.len() ==> abs_i((#[trigger] self.bias@[o]) as int)
                <= WEIGHT_LIMIT as int
    }

    /// A layer from its parts.
    pub fn new(weights: Vec<Vec<i64>>, bias: Vec<i64>, activation: Activation) -> (r: Layer)
        ensures
            r.weights == weights,
            r.bias == bias,
            r.activation == activation,
    {
        Layer { weights, bias, activation }
    }

    /// A layer with every weight drawn uniformly from `[-0.75, 0.75]` and
    /// every bias from `[-0.25, 0.25]` (in milli-units; the bias range is
    /// stated as a symmetric interval with its bounds in order).
    pub fn new_random(inputs: usize, outputs: usize, activation: Activation) -> (r: Layer)
        requires
            1 <= inputs <= MAX_DIM,
            1 <= outputs <= MAX_DIM,
        ensures
            r.wf(),
            r.in_dim() == inputs,
            r.out_dim() == outputs,
            r.activation == activation,
            forall|o: int, i: int|
                0 <= o < outputs && 0 <= i < inputs ==> -750 <= (#[trigger] r.weights@[o]@[i])
                    <= 750,
            forall|o: int| 0 <= o < outputs ==> -250 <= (#[trigger] r.bias@[o]) <= 250,
    {
        let mut weights: Vec<Vec<i64>> = Vec::new();
        let mut o: usize = 0;
        while o < outputs
            invariant
                o <= outputs,
                1 <= inputs <= MAX_DIM,
                weights@.len() == o,
                forall|k: int| 0 <= k < o ==> (#[trigger] weights@[k])@.len() == inputs,
                forall|k: int, i: int|
                    0 <= k < o && 0 <= i < inputs ==> -750 <= (#[trigger] weights@[k]@[i]) <= 750,
            decreases outputs - o,
        {
            let mut row: Vec<i64> = Vec::new();
            let mut i: usize = 0;
            while i < inputs
                invariant
                    i <= inputs,
                    row@.len() == i,
                    forall|j: int| 0 <= j < i ==> -750 <= (#[trigger] row@[j]) <= 750,
                decreases inputs - i,
            {
                row.push(random_in(-750, 750));
                i += 1;
            }
            weights.push(row);
            o += 1;
        }
        let mut bias: Vec<i64> = Vec::new();
        let mut k: usize = 0;
        while k < outputs
            invariant
                k <= outputs,
                bias@.len() == k,
                forall|j: int| 0 <= j < k ==> -250 <= (#[trigger] bias@[j]) <= 250,
            decreases outputs - k,
        {
            bias.push(random_in(-250, 250));
            k += 1;
        }
        Layer { weights, bias, activation }
    }

    /// Feeds an input vector through the layer: for each row, the bias
    /// plus the scaled weighted sum, saturated, then the activation.
    pub fn calculate(&self, inputs: &Vec<i64>) -> (r: Vec<i64>)
        requires
            self.wf(),
            inputs@.len() == self.in_dim(),
            forall|j: int|
                0 <= j < inputs@.len() ==> abs_i((#[trigger] inputs@[j]) as int)
                    <= VALUE_LIMIT as int,
        ensures
            r@.len() == self.out_dim(),
            forall|o: int|
                0 <= o < r@.len() ==> (#[trigger] r@[o]) as int == act_spec(
                    self.activation,
                    neuron_spec(self.weights@[o]@, inputs@, self.bias@[o] as int),
                ),
            forall|o: int|
                0 <= o < r@.len() ==> abs_i((#[trigger] r@[o]) as int) <= VALUE_LIMIT as int,
    {
        let rows: usize = self.weights.len();
        let cols: usize = inputs.len();
        let mut out: Vec<i64> = Vec::new();
        let mut o: usize = 0;
        while o < rows
            invariant
                o <= rows,
                rows == self.weights@.len(),
                cols == inputs@.len(),
                self.wf(),
                inputs@.len() == self.in_dim(),
                forall|j: int|
                    0 <= j < inputs@.len() ==> abs_i((#[trigger] inputs@[j]) as int)
                        <= VALUE_LIMIT as int,
                out@.len() == o,
                forall|k: int|
                    0 <= k < o ==> (#[trigger] out@[k]) as int == act_spec(
                        self.activation,
                        neuron_spec(self.weights@[k]@, inputs@, self.bias@[k] as int),
                    ),
                forall|k: int|
                    0 <= k < o ==> abs_i((#[trigger] out@[k]) as int) <= VALUE_LIMIT as int,
            decreases rows - o,
        {
            let row: &Vec<i64> = &self.weights[o];
            let mut acc: i128 = 0;
            let mut j: usize = 0;
            while j < cols
                invariant
                    j <= cols,
                    cols == inputs@.len(),
                    o < self.weights@.len(),
                    self.wf(),
                    inputs@.len() == self.in_dim(),
                    row@ == self.weights@[o as int]@,
                    forall|t: int|
                        0 <= t < inputs@.len() ==> abs_i((#[trigger] inputs@[t]) as int)
                            <= VALUE_LIMIT as int,
                    acc == wsum(row@, inputs@, j as int),
                    abs_i(acc as int) <= (j as int) * (8_000_000_000_000_000_000 as int),
                decreases cols - j,
            {
                proof {
                    lemma_abs_mul_le(
                        row@[j as int] as int,
                        inputs@[j as int] as int,
                        WEIGHT_LIMIT as int,
                        VALUE_LIMIT as int,
                    );
                }
                acc = acc + (row[j] as i128) * (inputs[j] as i128);
                j += 1;
            }
            let q: i128 = div_trunc_i128(acc, 1000);
            let p: i128 = self.bias[o] as i128 + q;
            let clamped: i64 = if p < -VALUE_LIMIT as i128 {
                -VALUE_LIMIT
            } else if p > VALUE_LIMIT as i128 {
                VALUE_LIMIT
            } else {
                p as i64
            };
            let v: i64 = match self.activation {
                Activation::Identity => clamped,
                Activation::Sigmoid => sigmoid(clamped),
            };
            out.push(v);
            o += 1;
        }
        out
    }
}

/// Single-point crossover of one layer: the result has parent `a`'s
/// shape and activation; weights at row-major flattened positions
/// `0..=cw` come from parent `b` and the rest from `a`, and likewise
/// biases at positions `0..=cb`. Fully deterministic in `cw` and `cb`.
pub fn crossover_layer(a: &Layer, b: &Layer, cw: usize, cb: usize) -> (r: Layer)
    requires
        a.wf(),
        b.wf(),
        a.in_dim() == b.in_dim(),
        a.out_dim() == b.out_dim(),
        cw < a.out_dim() * a.in_dim(),
        cb < a.bias@.len(),
    ensures
        r.wf(),
        r.in_dim() == a.in_dim(),
        r.out_dim() == a.out_dim(),
        r.activation == a.activation,
        forall|o: int, i: int|
            0 <= o < a.out_dim() && 0 <= i < a.in_dim() ==> (#[trigger] r.weights@[o]@[i]) == (
            if o * a.in_dim() + i <= cw {
                b.weights@[o]@[i]
            } else {
                a.weights@[o]@[i]
            }),
        forall|k: int|
            0 <= k < a.bias@.len() ==> (#[trigger] r.bias@[k]) == (if k <= cb {
                b.bias@[k]
            } else {
                a.bias@[k]
            }),
{
    let rows: usize = a.weights.len();
    let cols: usize = a.weights[0].len();
    let mut weights: Vec<Vec<i64>> = Vec::new();
    let mut flat: usize = 0;
    let mut o: usize = 0;
    while o < rows
        invariant
            o <= rows,
            rows == a.out_dim(),
            cols == a.in_dim(),
            a.wf(),
            b.wf(),
            a.in_dim() == b.in_dim(),
            a.out_dim() == b.out_dim(),
            flat == o * cols,
            weights@.len() == o,
            forall|k: int| 0 <= k < o ==> (#[trigger] weights@[k])@.len() == cols,
            forall|k: int, i: int|
                0 <= k < o && 0 <= i < cols ==> (#[trigger] weights@[k]@[i]) == (if k * (
                cols as int) + i <= cw {
                    b.weights@[k]@[i]
                } else {
                    a.weights@[k]@[i]
                }),
        decreases rows - o,
    {
        proof {
            lemma_abs_mul_le(o as int, cols as int, 40_000, 40_000);
            lemma_abs_mul_le(o as int + 1, cols as int, 40_000, 40_000);
            assert((o as int + 1) * (cols as int) == o as int * cols as int + cols as int)
                by (nonlinear_arith);
        }
        let mut row: Vec<i64> = Vec::new();
        let mut i: usize = 0;
        while i < cols
            invariant
                i <= cols,
                o < rows,
                rows == a.out_dim(),
                cols == a.in_dim(),
                a.wf(),
                b.wf(),
                a.in_dim() == b.in_dim(),
                a.out_dim() == b.out_dim(),
                flat == o * cols + i,
                flat <= (o as int + 1) * (cols as int),
                (o as int + 1) * (cols as int) <= 1_600_000_000,
                (o as int + 1) * (cols as int) == o as int * cols as int + cols as int,
                row@.len() == i,
                forall|j: int|
                    0 <= j < i ==> (#[trigger] row@[j]) == (if (o as int) * (cols as int) + j
                        <= cw {
                        b.weights@[o as int]@[j]
                    } else {
                        a.weights@[o as int]@[j]
                    }),
            decreases cols - i,
        {
            if flat <= cw {
                row.push(b.weights[o][i]);
            } else {
                row.push(a.weights[o][i]);
            }
            flat += 1;
            i += 1;
        }
        weights.push(row);
        o += 1;
    }
    let nb: usize = a.bias.len();
    let mut bias: Vec<i64> = Vec::new();
    let mut k: usize = 0;
    while k < nb
        invariant
            k <= nb,
            nb == a.bias@.len(),
            a.wf(),
            b.wf(),
            a.out_dim() == b.out_dim(),
            bias@.len() == k,
            forall|j: int|
                0 <= j < k ==> (#[trigger] bias@[j]) == (if j <= cb {
                    b.bias@[j]
                } else {
                    a.bias@[j]
                }),
        decreases nb - k,
    {
        if k <= cb {
            bias.push(b.bias[k]);
        } else {
            bias.push(a.bias[k]);
        }
        k += 1;
    }
    Layer { weights, bias, activation: a.activation }
}

/// The mutated value `r` came from the gene value `f`: either unchanged,
/// or with a perturbation `p` added and saturated at the weight range.
pub open spec fn gene_outcome(f: int, p: int, r: int) -> bool {
    r == f || r == clamp_spec(f + p, -(WEIGHT_LIMIT as int), WEIGHT_LIMIT as int)
}

/// The value `v` came from a fresh draw in `[-fresh_bound, fresh_bound]`,
/// possibly perturbed by at most `pert_bound` and saturated: the old gene
/// plays no part in it.
/// The new gene `new_g` is a two-stage mutation outcome of the old gene
/// `old_g`, at any rates: its base is the old gene or a fresh draw in
/// `[-fresh_bound, fresh_bound]`, possibly perturbed by at most
/// `pert_bound` and saturated at the weight range.
pub open spec fn mutation_outcome(old_g: int, new_g: int, fresh_bound: int, pert_bound: int)
    -> bool {
    exists|f: int, p: int|
        {
            &&& -pert_bound <= p <= pert_bound
            &&& (f == old_g || -fresh_bound <= f <= fresh_bound)
            &&& #[trigger] gene_outcome(f, p, new_g)
        }
}

pub open spec fn fresh_outcome(v: int, fresh_bound: int, pert_bound: int) -> bool {
    exists|f: int, p: int|
        {
            &&& -fresh_bound <= f <= fresh_bound
            &&& -pert_bound <= p <= pert_bound
            &&& #[trigger] gene_outcome(f, p, v)
        }
}

/// Two-stage mutation of one gene. With probability `rate_total / 1000`
/// the gene is replaced by a fresh uniform draw from
/// `[-fresh_bound, fresh_bound]`; independently, with probability
/// `rate_partial / 1000`, a uniform perturbation from
/// `[-pert_bound, pert_bound]` is added, saturating at the weight range.
/// A rate of 0 never fires and a rate of 1000 always fires.
pub fn mutate_gene(g: i64, rate_total: i64, rate_partial: i64, fresh_bound: i64, pert_bound: i64)
    -> (r: i64)
    requires
        abs_i(g as int) <= WEIGHT_LIMIT as int,
        0 <= rate_total <= RATE_DEN,
        0 <= rate_partial <= RATE_DEN,
        0 < fresh_bound <= WEIGHT_LIMIT,
        0 < pert_bound <= WEIGHT_LIMIT,
    ensures
        abs_i(r as int) <= WEIGHT_LIMIT as int,
        rate_total == 0 && rate_partial == 0 ==> r == g,
        rate_total == RATE_DEN ==> fresh_outcome(r as int, fresh_bound as int, pert_bound as int),
        mutation_outcome(g as int, r as int, fresh_bound as int, pert_bound as int),
{
    let roll_total: i64 = random_in(0, RATE_DEN - 1);
    let base: i64 = if roll_total < rate_total {
        random_in(-fresh_bound, fresh_bound)
    } else {
        g
    };
    let roll_partial: i64 = random_in(0, RATE_DEN - 1);
    if roll_partial < rate_partial {
        let pert: i64 = random_in(-pert_bound, pert_bound);
        let out: i64 = add_clamped(base, pert, -WEIGHT_LIMIT, WEIGHT_LIMIT);
        proof {
            assert(gene_outcome(base as int, pert as int, out as int));
        }
        out
    } else {
        proof {
            assert(gene_outcome(base as int, 0, base as int));
        }
        base
    }
}

/// The two-stage mutation applied to every weight (with the first pair
/// of rates) and every bias (with the second pair) of a layer,
/// independently per gene. Rates of zero leave that kind of gene
/// untouched.
pub fn mutate_layer(l: &Layer, rate_wt: i64, rate_wp: i64, rate_bt: i64, rate_bp: i64) -> (r:
    Layer)
    requires
        l.wf(),
        0 <= rate_wt <= RATE_DEN,
        0 <= rate_wp <= RATE_DEN,
        0 <= rate_bt <= RATE_DEN,
        0 <= rate_bp <= RATE_DEN,
    ensures
        r.wf(),
        r.in_dim() == l.in_dim(),
        r.out_dim() == l.out_dim(),
        r.activation == l.activation,
        rate_wt == 0 && rate_wp == 0 ==> forall|o: int, i: int|
            0 <= o < l.out_dim() && 0 <= i < l.in_dim() ==> (#[trigger] r.weights@[o]@[i])
                == l.weights@[o]@[i],
        rate_bt == 0 && rate_bp == 0 ==> forall|k: int|
            0 <= k < l.bias@.len() ==> (#[trigger] r.bias@[k]) == l.bias@[k],
        rate_wt == RATE_DEN ==> forall|o: int, i: int|
            0 <= o < l.out_dim() && 0 <= i < l.in_dim() ==> fresh_outcome(
                (#[trigger] r.weights@[o]@[i]) as int,
                1000,
                500,
            ),
        rate_bt == RATE_DEN ==> forall|k: int|
            0 <= k < l.bias@.len() ==> fresh_outcome((#[trigger] r.bias@[k]) as int, 500, 500),
        forall|o: int, i: int|
            0 <= o < l.out_dim() && 0 <= i < l.in_dim() ==> mutation_outcome(
                l.weights@[o]@[i] as int,
                (#[trigger] r.weights@[o]@[i]) as int,
                1000,
                500,
            ),
        forall|k: int|
            0 <= k < l.bias@.len() ==> mutation_outcome(
                l.bias@[k] as int,
                (#[trigger] r.bias@[k]) as int,
                500,
                500,
            ),
{
    let rows: usize = l.weights.len();
    let cols: usize = l.weights[0].len();
    let mut weights: Vec<Vec<i64>> = Vec::new();
    let mut o: usize = 0;
    while o < rows
        invariant
            o <= rows,
            rows == l.out_dim(),
            cols == l.in_dim(),
            l.wf(),
            0 <= rate_wt <= RATE_DEN,
            0 <= rate_wp <= RATE_DEN,
            weights@.len() == o,
            forall|k: int| 0 <= k < o ==> (#[trigger] weights@[k])@.len() == cols,
            forall|k: int, i: int|
                0 <= k < o && 0 <= i < cols ==> abs_i((#[trigger] weights@[k]@[i]) as int)
                    <= WEIGHT_LIMIT as int,
            rate_wt == 0 && rate_wp == 0 ==> forall|k: int, i: int|
                0 <= k < o && 0 <= i < cols ==> (#[trigger] weights@[k]@[i])
                    == l.weights@[k]@[i],
            rate_wt == RATE_DEN ==> forall|k: int, i: int|
                0 <= k < o && 0 <= i < cols ==> fresh_outcome(
                    (#[trigger] weights@[k]@[i]) as int,
                    1000,
                    500,
                ),
            forall|k: int, i: int|
                0 <= k < o && 0 <= i < cols ==> mutation_outcome(
                    l.weights@[k]@[i] as int,
                    (#[trigger] weights@[k]@[i]) as int,
                    1000,
                    500,
                ),
        decreases rows - o,
    {
        let mut row: Vec<i64> = Vec::new();
        let mut i: usize = 0;
        while i < cols
            invariant
                i <= cols,
                o < rows,
                rows == l.out_dim(),
                cols == l.in_dim(),
                l.wf(),
                0 <= rate_wt <= RATE_DEN,
                0 <= rate_wp <= RATE_DEN,
                row@.len() == i,
                forall|j: int|
                    0 <= j < i ==> abs_i((#[trigger] row@[j]) as int) <= WEIGHT_LIMIT as int,
                rate_wt == 0 && rate_wp == 0 ==> forall|j: int|
                    0 <= j < i ==> (#[trigger] row@[j]) == l.weights@[o as int]@[j],
                rate_wt == RATE_DEN ==> forall|j: int|
                    0 <= j < i ==> fresh_outcome((#[trigger] row@[j]) as int, 1000, 500),
                forall|j: int|
                    0 <= j < i ==> mutation_outcome(
                        l.weights@[o as int]@[j] as int,
                        (#[trigger] row@[j]) as int,
                        1000,
                        500,
                    ),
            decreases cols - i,
        {
            row.push(mutate_gene(l.weights[o][i], rate_wt, rate_wp, 1000, 500));
            i += 1;
        }
        weights.push(row);
        o += 1;
    }
    let nb: usize = l.bias.len();
    let mut bias: Vec<i64> = Vec::new();
    let mut k: usize = 0;
    while k < nb
        invariant
            k <= nb,
            nb == l.bias@.len(),
            l.wf(),
            0 <= rate_bt <= RATE_DEN,
            0 <= rate_bp <= RATE_DEN,
            bias@.len() == k,
            forall|j: int| 0 <= j < k ==> abs_i((#[trigger] bias@[j]) as int) <= WEIGHT_LIMIT as int,
            rate_bt == 0 && rate_bp == 0 ==> forall|j: int|
                0 <= j < k ==> (#[trigger] bias@[j]) == l.bias@[j],
            rate_bt == RATE_DEN ==> forall|j: int|
                0 <= j < k ==> fresh_outcome((#[trigger] bias@[j]) as int, 500, 500),
            forall|j: int|
                0 <= j < k ==> mutation_outcome(
                    l.bias@[j] as int,
                    (#[trigger] bias@[j]) as int,
                    500,
                    500,
                ),
        decreases nb - k,
    {
        bias.push(mutate_gene(l.bias[k], rate_bt, rate_bp, 500, 500));
        k += 1;
    }
    Layer { weights, bias, activation: l.activation }
}

/// Every gene of `child` is a two-stage mutation outcome of the
/// single-point crossover of `a` and `b` at the weight cut `cw`
/// (row-major flattened) and the bias cut `cb`: parent `b` supplies the
/// genes at positions up to the cut, parent `a` the rest.
pub open spec fn bred_layer(a: Layer, b: Layer, child: Layer, cw: int, cb: int) -> bool {
    &&& child.out_dim() == a.out_dim()
    &&& child.in_dim() == a.in_dim()
    &&& child.activation == a.activation
    &&& forall|o: int, i: int|
        0 <= o < a.out_dim() && 0 <= i < a.in_dim() ==> mutation_outcome(
            (if o * a.in_dim() + i <= cw {
                b.weights@[o]@[i]
            } else {
                a.weights@[o]@[i]
            }) as int,
            (#[trigger] child.weights@[o]@[i]) as int,
            1000,
            500,
        )
    &&& forall|k: int|
        0 <= k < a.bias@.len() ==> mutation_outcome(
            (if k <= cb {
                b.bias@[k]
            } else {
                a.bias@[k]
            }) as int,
            (#[trigger] child.bias@[k]) as int,
            500,
            500,
        )
}

/// `child` was bred from parents `a` and `b`: a single-point crossover
/// at some valid cuts, then the two-stage mutation of every gene.
pub open spec fn bred_from(a: Layer, b: Layer, child: Layer) -> bool {
    exists|cw: int, cb: int|
        {
            &&& 0 <= cw < a.out_dim() * a.in_dim()
            &&& 0 <= cb < a.bias@.len()
            &&& #[trigger] bred_layer(a, b, child, cw, cb)
        }
}

/// Every layer of `child` was bred from the matching layers of the two
/// parent networks.
pub open spec fn bred_brain(a: Network, b: Network, child: Network) -> bool {
    &&& child.layers@.len() == a.layers@.len()
    &&& forall|li: int|
        0 <= li < a.layers@.len() ==> bred_from(
            a.layers@[li],
            b.layers@[li],
            #[trigger] child.layers@[li],
        )
}

/// One layer applied to an input vector, as a sequence.
pub open spec fn layer_eval(l: Layer, x: Seq<i64>) -> Seq<i64> {
    Seq::new(
        l.weights@.len(),
        |o: int| act_spec(l.activation, neuron_spec(l.weights@[o]@, x, l.bias@[o] as int)) as i64,
    )
}

/// The layers applied in order to an input vector.
pub open spec fn net_eval(layers: Seq<Layer>, x: Seq<i64>) -> Seq<i64>
    decreases layers.len(),
{
    if layers.len() == 0 {
        x
    } else {
        net_eval(layers.drop_first(), layer_eval(layers[0], x))
    }
}

/// A nonempty network produces as many values as its last layer has
/// rows, whatever the input.
pub proof fn lemma_net_eval_len(layers: Seq<Layer>, x: Seq<i64>)
    requires
        layers.len() > 0,
    ensures
        net_eval(layers, x).len() == layers.last().out_dim(),
    decreases layers.len(),
{
    reveal_with_fuel(net_eval, 3);
    if layers.len() == 1 {
        assert(layers.drop_first() =~= Seq::<Layer>::empty());
        assert(layers[0] == layers.last());
    } else {
        lemma_net_eval_len(layers.drop_first(), layer_eval(layers[0], x));
        assert(layers.drop_first().last() == layers.last());
    }
}

/// The layers form a well-formed pipeline for `dim` inputs.
pub open spec fn wf_chain(layers: Seq<Layer>, dim: int) -> bool
    decreases layers.len(),
{
    if layers.len() == 0 {
        true
    } else {
        &&& layers[0].wf()
        &&& layers[0].in_dim() == dim
        &&& wf_chain(layers.drop_first(), layers[0].out_dim())
    }
}

/// Evaluating after appending a layer is the layer applied to the
/// previous evaluation.
pub proof fn lemma_net_eval_snoc(layers: Seq<Layer>, l: Layer, x: Seq<i64>)
    ensures
        net_eval(layers.push(l), x) == layer_eval(l, net_eval(layers, x)),
    decreases layers.len(),
{
    reveal_with_fuel(net_eval, 3);
    assert(layers.push(l)[0] == if layers.len() == 0 {
        l
    } else {
        layers[0]
    });
    if layers.len() == 0 {
        assert(layers.push(l).drop_first() =~= Seq::<Layer>::empty());
    } else {
        assert(layers.push(l).drop_first() =~= layers.drop_first().push(l));
        lemma_net_eval_snoc(layers.drop_first(), l, layer_eval(layers[0], x));
    }
}

impl Network {
    /// The network computes a value for `dim`-vectors: each layer is
    /// well formed and consumes exactly what the previous one produces.
    pub open spec fn wf_for(self, dim: int) -> bool {
        wf_chain(self.layers@, dim)
    }

    /// A network with no layers.
    pub fn new_empty() -> (r: Network)
        ensures
            r.layers@.len() == 0,
    {
        Network { layers: Vec::new() }
    }

    /// The network extended by one layer at the end.
    pub fn add_layer(self, layer: Layer) -> (r: Network)
        ensures
            r.layers@ == self.layers@.push(layer),
    {
        let mut n = self;
        n.layers.push(layer);
        n
    }

    /// Feeds the input vector through every layer in order.
    pub fn run(&self, inputs: Vec<i64>) -> (r: Vec<i64>)
        requires
            self.wf_for(inputs@.len() as int),
            forall|j: int|
                0 <= j < inputs@.len() ==> abs_i((#[trigger] inputs@[j]) as int)
                    <= VALUE_LIMIT as int,
        ensures
            r@ == net_eval(self.layers@, inputs@),
            forall|j: int|
                0 <= j < r@.len() ==> abs_i((#[trigger] r@[j]) as int) <= VALUE_LIMIT as int,
    {
        let n: usize = self.layers.len();
        let mut values: Vec<i64> = inputs;
        let ghost x0: Seq<i64> = values@;
        proof {
            assert(self.layers@.subrange(0, n as int) =~= self.layers@);
        }
        let mut i: usize = 0;
        while i < n
            invariant
                i <= n,
                n == self.layers@.len(),
                values@ == net_eval(self.layers@.subrange(0, i as int), x0),
                wf_chain(self.layers@.subrange(i as int, n as int), values@.len() as int),
                forall|j: int|
                    0 <= j < values@.len() ==> abs_i((#[trigger] values@[j]) as int)
                        <= VALUE_LIMIT as int,
            decreases n - i,
        {
            let ghost pre = values@;
            let ghost rest = self.layers@.subrange(i as int, n as int);
            proof {
                assert(rest[0] == self.layers@[i as int]);
            }
            values = self.layers[i].calculate(&values);
            proof {
                let l = self.layers@[i as int];
                assert(values@ =~= layer_eval(l, pre));
                assert(self.layers@.subrange(0, i as int + 1) =~= self.layers@.subrange(
                    0,
                    i as int,
                ).push(l));
                lemma_net_eval_snoc(self.layers@.subrange(0, i as int), l, x0);
                assert(rest.drop_first() =~= self.layers@.subrange(i as int + 1, n as int));
            }
            i += 1;
        }
        proof {
            assert(self.layers@.subrange(0, n as int) =~= self.layers@);
        }
        values
    }
}

} // verus!
