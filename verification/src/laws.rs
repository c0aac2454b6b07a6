//! Laws of the training state machine.
//!
//! Each law here is a consequence of the contracts in `layer` and
//! `network`, written out so that what the engine guarantees across calls
//! is stated in one place and proved.

use crate::fixed::fx_in_range;
use crate::layer::flush_cell_spec;
use crate::network::{forward_upto, NeuronNetwork};
use vstd::prelude::*;

verus! {

/// A flush immediately after a flush is rejected rather than dividing by
/// zero: a successful `flush_weights` leaves the network idle (its
/// contract), and `flush_weights` succeeds exactly when every layer has a
/// positive example count, which an idle network refutes.  The second call
/// therefore returns `EmptyGradient` and changes nothing.
pub proof fn lemma_flush_after_flush_rejected(n: NeuronNetwork)
    requires
        n.wf(),
        n.is_idle(),
    ensures
        !(forall|i: int| 0 <= i < n.spec_num_layers() ==> (#[trigger] n.l(i)).seen() > 0),
{
    assert(n.l(0).seen() == 0);
}

/// Forwarding the same input twice with no training step between the two
/// passes yields identical outputs: `forward_pass` leaves the weights
/// unchanged and fills every cache with a function of the weights and the
/// input alone, so the states after the first and the second pass carry
/// the same activations.
pub proof fn lemma_forward_pass_idempotent(
    first: NeuronNetwork,
    second: NeuronNetwork,
    input: Seq<int>,
)
    requires
        first.spec_num_layers() == second.spec_num_layers(),
        first.model() == second.model(),
        first.forwarded(input),
        second.forwarded(input),
    ensures
        forall|i: int|
            0 <= i < first.spec_num_layers() ==> (#[trigger] first.l(i)).outs() == second.l(
                i,
            ).outs(),
{
    assert forall|i: int|
        0 <= i < first.spec_num_layers() implies (#[trigger] first.l(i)).outs() == second.l(
        i,
    ).outs() by {
        assert(first.l(i).outs() == forward_upto(input, first.model(), i + 1));
        assert(second.l(i).outs() == forward_upto(input, second.model(), i + 1));
    }
}

/// A stationary point stays put: flushing a zero gradient cell leaves the
/// weight unchanged, at any learning rate and example count.
pub proof fn lemma_zero_gradient_step_fixes_weight(w: int, rate: int, n: int)
    requires
        fx_in_range(w),
        n > 0,
    ensures
        flush_cell_spec(w, 0, rate, n) == w,
{
    assert(rate * 0 == 0);
}

} // verus!
