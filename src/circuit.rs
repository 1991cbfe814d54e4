//! Boolean circuits of XOR, AND and INV gates over dense wire ids.
use vstd::prelude::*;

verus! {

/// A gate, reading wires `x` (and `y`) and writing wire `z`.
#[derive(Clone, Copy, Debug, PartialEq, Eq, Structural)]
pub enum Gate {
    /// `z = x ^ y`.
    Xor { x: usize, y: usize, z: usize },
    /// `z = x & y`.
    And { x: usize, y: usize, z: usize },
    /// `z = !x`.
    Inv { x: usize, z: usize },
}

/// Error building a [`Circuit`].
#[derive(Clone, Copy, Debug, PartialEq, Eq, Structural)]
pub enum CircuitError {
    /// A wire id is not below the wire count.
    InvalidWire(usize),
    /// The number of values does not match the circuit.
    InvalidLength { expected: usize, actual: usize },
}

/// Whether every wire that `g` touches is below `feed_count`.
pub open spec fn gate_in_bounds(g: Gate, feed_count: nat) -> bool {
    match g {
        Gate::Xor { x, y, z } => x < feed_count && y < feed_count && z < feed_count,
        Gate::And { x, y, z } => x < feed_count && y < feed_count && z < feed_count,
        Gate::Inv { x, z } => x < feed_count && z < feed_count,
    }
}

/// The number of AND gates among the first `k` gates.
pub open spec fn and_count_upto(gates: Seq<Gate>, k: nat) -> nat
    decreases k,
{
    if k == 0 {
        0
    } else {
        and_count_upto(gates, (k - 1) as nat) + (if gates[k - 1] is And { 1nat } else { 0nat })
    }
}

/// One gate applied to plaintext wire values.
pub open spec fn plain_step(v: Seq<bool>, g: Gate) -> Seq<bool> {
    match g {
        Gate::Xor { x, y, z } => v.update(z as int, v[x as int] != v[y as int]),
        Gate::And { x, y, z } => v.update(z as int, v[x as int] && v[y as int]),
        Gate::Inv { x, z } => v.update(z as int, !v[x as int]),
    }
}

/// Plaintext wire values after the first `k` gates.
pub open spec fn plain_run(gates: Seq<Gate>, v0: Seq<bool>, k: nat) -> Seq<bool>
    decreases k,
{
    if k == 0 {
        v0
    } else {
        plain_step(plain_run(gates, v0, (k - 1) as nat), gates[k - 1])
    }
}

/// `values` written on the wires `wires`, over `base`.
pub open spec fn assign_wires<T>(base: Seq<T>, wires: Seq<usize>, values: Seq<T>) -> Seq<T>
    decreases wires.len(),
{
    if wires.len() == 0 {
        base
    } else {
        assign_wires(base, wires.drop_last(), values).update(wires.last() as int, values[wires.len() - 1])
    }
}

/// A boolean circuit: its input wires, its output wires and its gates in
/// topological order, over wire ids `0..feed_count`.
#[derive(Debug)]
pub struct Circuit {
    inputs: Vec<usize>,
    outputs: Vec<usize>,
    gates: Vec<Gate>,
    feed_count: usize,
    and_count: usize,
}

impl Circuit {
    /// Input wire ids, in input order.
    pub closed spec fn input_wires(&self) -> Seq<usize> {
        self.inputs@
    }

    /// Output wire ids, in output order.
    pub closed spec fn output_wires(&self) -> Seq<usize> {
        self.outputs@
    }

    /// The gates, in evaluation order.
    pub closed spec fn spec_gates(&self) -> Seq<Gate> {
        self.gates@
    }

    /// The number of wires.
    pub closed spec fn spec_feed_count(&self) -> nat {
        self.feed_count as nat
    }

    /// The circuit's invariant: every wire id is below the wire count, and the
    /// AND count is right.
    pub closed spec fn wf(&self) -> bool {
        &&& forall|i: int| 0 <= i < self.inputs@.len() ==> #[trigger] self.inputs@[i] < self.feed_count
        &&& forall|i: int| 0 <= i < self.outputs@.len() ==> #[trigger] self.outputs@[i] < self.feed_count
        &&& forall|i: int| 0 <= i < self.gates@.len() ==> gate_in_bounds(#[trigger] self.gates@[i], self.feed_count as nat)
        &&& self.and_count == and_count_upto(self.gates@, self.gates@.len())
    }

    /// The circuit's invariant, as its parts see it.
    pub proof fn lemma_wf(&self)
        requires
            self.wf(),
        ensures
            forall|i: int| 0 <= i < self.input_wires().len() ==> #[trigger] self.input_wires()[i] < self.spec_feed_count(),
            forall|i: int| 0 <= i < self.output_wires().len() ==> #[trigger] self.output_wires()[i] < self.spec_feed_count(),
            forall|i: int| 0 <= i < self.spec_gates().len() ==> gate_in_bounds(#[trigger] self.spec_gates()[i], self.spec_feed_count()),
    {
    }

    /// Builds a circuit, checking that every wire id is below `feed_count`.
    pub fn new(inputs: Vec<usize>, outputs: Vec<usize>, gates: Vec<Gate>, feed_count: usize) -> (r: Result<Circuit, CircuitError>)
        ensures
            match r {
                Ok(c) => {
                    &&& c.wf()
                    &&& c.input_wires() == inputs@
                    &&& c.output_wires() == outputs@
                    &&& c.spec_gates() == gates@
                    &&& c.spec_feed_count() == feed_count
                },
                Err(_) => true,
            },
    {
        let mut i: usize = 0;
        while i < inputs.len()
            invariant
                i <= inputs@.len(),
                forall|j: int| 0 <= j < i ==> #[trigger] inputs@[j] < feed_count,
            decreases inputs@.len() - i,
        {
            if inputs[i] >= feed_count {
                return Err(CircuitError::InvalidWire(inputs[i]));
            }
            i = i + 1;
        }
        let mut i: usize = 0;
        while i < outputs.len()
            invariant
                i <= outputs@.len(),
                forall|j: int| 0 <= j < i ==> #[trigger] outputs@[j] < feed_count,
            decreases outputs@.len() - i,
        {
            if outputs[i] >= feed_count {
                return Err(CircuitError::InvalidWire(outputs[i]));
            }
            i = i + 1;
        }
        let mut ands: usize = 0;
        let mut i: usize = 0;
        while i < gates.len()
            invariant
                i <= gates@.len(),
                ands == and_count_upto(gates@, i as nat),
                ands <= i,
                forall|j: int| 0 <= j < i ==> gate_in_bounds(#[trigger] gates@[j], feed_count as nat),
            decreases gates@.len() - i,
        {
            match gates[i] {
                Gate::Xor { x, y, z } => {
                    if x >= feed_count || y >= feed_count || z >= feed_count {
                        return Err(CircuitError::InvalidWire(if x >= feed_count { x } else if y >= feed_count { y } else { z }));
                    }
                },
                Gate::And { x, y, z } => {
                    if x >= feed_count || y >= feed_count || z >= feed_count {
                        return Err(CircuitError::InvalidWire(if x >= feed_count { x } else if y >= feed_count { y } else { z }));
                    }
                    ands = ands + 1;
                },
                Gate::Inv { x, z } => {
                    if x >= feed_count || z >= feed_count {
                        return Err(CircuitError::InvalidWire(if x >= feed_count { x } else { z }));
                    }
                },
            }
            i = i + 1;
        }
        Ok(Circuit { inputs, outputs, gates, feed_count, and_count: ands })
    }

    /// Returns the number of input wires.
    pub fn input_len(&self) -> (r: usize)
        ensures
            r == self.input_wires().len(),
    {
        self.inputs.len()
    }

    /// Returns the number of output wires.
    pub fn output_len(&self) -> (r: usize)
        ensures
            r == self.output_wires().len(),
    {
        self.outputs.len()
    }

    /// Returns the number of AND gates.
    pub fn and_count(&self) -> (r: usize)
        requires
            self.wf(),
        ensures
            r == and_count_upto(self.spec_gates(), self.spec_gates().len()),
    {
        self.and_count
    }

    /// Returns the number of wires.
    pub fn feed_count(&self) -> (r: usize)
        ensures
            r == self.spec_feed_count(),
    {
        self.feed_count
    }

    /// Returns the input wire ids.
    pub fn inputs(&self) -> (r: &Vec<usize>)
        ensures
            r@ == self.input_wires(),
    {
        &self.inputs
    }

    /// Returns the output wire ids.
    pub fn outputs(&self) -> (r: &Vec<usize>)
        ensures
            r@ == self.output_wires(),
    {
        &self.outputs
    }

    /// Returns the gates.
    pub fn gates(&self) -> (r: &Vec<Gate>)
        ensures
            r@ == self.spec_gates(),
    {
        &self.gates
    }

    /// Plaintext wire values after all gates, for the input values `inputs`.
    pub open spec fn spec_wires(&self, inputs: Seq<bool>) -> Seq<bool> {
        plain_run(
            self.spec_gates(),
            assign_wires(Seq::new(self.spec_feed_count(), |i: int| false), self.input_wires(), inputs),
            self.spec_gates().len(),
        )
    }

    /// Evaluates the circuit on plaintext inputs, returning the output values.
    pub fn evaluate(&self, inputs: &Vec<bool>) -> (r: Result<Vec<bool>, CircuitError>)
        requires
            self.wf(),
        ensures
            r.is_ok() == (inputs@.len() == self.input_wires().len()),
            r.is_ok() ==> r.unwrap()@ == self.output_wires().map_values(|w: usize| self.spec_wires(inputs@)[w as int]),
    {
        if inputs.len() != self.inputs.len() {
            return Err(CircuitError::InvalidLength { expected: self.inputs.len(), actual: inputs.len() });
        }
        let mut wires: Vec<bool> = Vec::new();
        let mut i: usize = 0;
        while i < self.feed_count
            invariant
                i <= self.feed_count,
                wires@ == Seq::new(i as nat, |j: int| false),
            decreases self.feed_count - i,
        {
            wires.push(false);
            assert(wires@ =~= Seq::new((i + 1) as nat, |j: int| false));
            i = i + 1;
        }
        let mut i: usize = 0;
        while i < self.inputs.len()
            invariant
                self.wf(),
                i <= self.inputs@.len(),
                inputs@.len() == self.inputs@.len(),
                wires@ == assign_wires(Seq::new(self.feed_count as nat, |j: int| false), self.inputs@.subrange(0, i as int), inputs@),
                wires@.len() == self.feed_count,
            decreases self.inputs@.len() - i,
        {
            let w = self.inputs[i];
            assert(w < self.feed_count);
            wires.set(w, inputs[i]);
            assert(self.inputs@.subrange(0, i + 1).drop_last() =~= self.inputs@.subrange(0, i as int));
            i = i + 1;
        }
        assert(self.inputs@.subrange(0, i as int) =~= self.inputs@);
        let ghost v0 = wires@;
        let mut k: usize = 0;
        while k < self.gates.len()
            invariant
                self.wf(),
                k <= self.gates@.len(),
                wires@ == plain_run(self.gates@, v0, k as nat),
                wires@.len() == self.feed_count,
            decreases self.gates@.len() - k,
        {
            assert(gate_in_bounds(self.gates@[k as int], self.feed_count as nat));
            match self.gates[k] {
                Gate::Xor { x, y, z } => {
                    let b = wires[x] != wires[y];
                    wires.set(z, b);
                },
                Gate::And { x, y, z } => {
                    let b = wires[x] && wires[y];
                    wires.set(z, b);
                },
                Gate::Inv { x, z } => {
                    let b = !wires[x];
                    wires.set(z, b);
                },
            }
            k = k + 1;
        }
        let mut out: Vec<bool> = Vec::with_capacity(self.outputs.len());
        let mut i: usize = 0;
        while i < self.outputs.len()
            invariant
                self.wf(),
                i <= self.outputs@.len(),
                wires@.len() == self.feed_count,
                out@ == self.outputs@.subrange(0, i as int).map_values(|w: usize| wires@[w as int]),
            decreases self.outputs@.len() - i,
        {
            out.push(wires[self.outputs[i]]);
            assert(out@ =~= self.outputs@.subrange(0, i + 1).map_values(|w: usize| wires@[w as int]));
            i = i + 1;
        }
        assert(self.outputs@.subrange(0, i as int) =~= self.outputs@);
        assert(out@ =~= self.output_wires().map_values(|w: usize| self.spec_wires(inputs@)[w as int]));
        Ok(out)
    }
}

} // verus!
