use vstd::prelude::*;

use crate::fixed::{fx_div, Fx};
use crate::resource::HasSamplerResources;
use crate::types::{Logits, SamplerError};

verus! {

/// Temperature sampling: divides every logit by the temperature. Higher
/// values make the output more random; a temperature of zero disables the
/// stage.
#[derive(Debug, Clone, Copy, PartialEq, Eq, Structural)]
pub struct SampleTemperature {
    pub temperature: Fx,
}

impl SampleTemperature {
    pub fn new(temperature: Fx) -> (r: SampleTemperature)
        ensures
            r.temperature == temperature,
    {
        SampleTemperature { temperature }
    }

    /// Builder-style update of the temperature.
    pub fn temperature(self, val: Fx) -> (r: SampleTemperature)
        ensures
            r.temperature == val,
    {
        SampleTemperature { temperature: val }
    }

    /// Divide every logit by the temperature, clearing both validity
    /// flags; a temperature of zero leaves the container untouched.
    pub fn sample<R: HasSamplerResources>(&mut self, _res: &mut R, logits: &mut Logits) -> (r:
        Result<(), SamplerError>)
        requires
            old(logits).wf(),
        ensures
            r.is_ok(),
            final(logits).wf(),
            *final(_res) == *old(_res),
            old(self).temperature.bits == 0 ==> *final(logits) == *old(logits),
            old(self).temperature.bits != 0 ==> {
                &&& final(logits)@.len() == old(logits)@.len()
                &&& forall|i: int|
                    0 <= i < old(logits)@.len() ==> (#[trigger] final(logits)@[i]).token_id == old(logits)@[i].token_id && final(logits)@[i].prob == old(logits)@[i].prob
                &&& forall|i: int|
                    0 <= i < old(logits)@.len() ==> (#[trigger] final(logits)@[i]).logit.bits as int == fx_div(
                        old(logits)@[i].logit.bits as int,
                        old(self).temperature.bits as int,
                    )
                &&& old(logits)@.len() > 0 ==> !final(logits).spec_sorted() && !final(logits).spec_softmax()
            },
    {
        if self.temperature.bits == 0 {
            return Ok(());
        }
        let n = logits.len();
        let mut i: usize = 0;
        while i < n
            invariant
                0 <= i <= n,
                n == logits@.len(),
                logits.wf(),
                old(logits)@.len() == n,
                self.temperature.bits != 0,
                forall|j: int|
                    0 <= j < n ==> (#[trigger] logits@[j]).token_id == old(logits)@[j].token_id
                        && logits@[j].prob == old(logits)@[j].prob,
                forall|j: int|
                    0 <= j < i ==> (#[trigger] logits@[j]).logit.bits as int == fx_div(
                        old(logits)@[j].logit.bits as int,
                        self.temperature.bits as int,
                    ),
                forall|j: int| i <= j < n ==> (#[trigger] logits@[j]) == old(logits)@[j],
                i == 0 ==> *logits == *old(logits),
                i > 0 ==> !logits.spec_sorted() && !logits.spec_softmax(),
            decreases n - i,
        {
            let e = logits.entry(i);
            let nv = e.logit.div(self.temperature);
            assert(!nv.spec_is_nan());
            logits.set_logit(i, nv);
            i = i + 1;
        }
        Ok(())
    }
}

impl Default for SampleTemperature {
    /// The default temperature is one: a pass that changes nothing of the
    /// distribution's shape.
    fn default() -> (r: SampleTemperature)
        ensures
            r.temperature.bits == crate::fixed::FX_ONE,
    {
        SampleTemperature { temperature: Fx { bits: crate::fixed::FX_ONE } }
    }
}

} // verus!
