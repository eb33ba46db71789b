use vstd::prelude::*;

use crate::chain::{kind_like, same_variant, SamplerChain, SamplerKind};
use crate::configure::configurable::{all_segs_ok, configure, segment_applied, segs_effect};
use crate::configure::value::{str_chars, trimmed, ConfigureSamplerError};
use crate::samplers::{
    SampleFlatBias, SampleFreqPresence, SampleGreedy, SampleLocallyTypical, SampleMinP,
    SampleMirostat1, SampleMirostat2, SampleRandDistrib, SampleRepetition, SampleSeqRepetition,
    SampleTailFree, SampleTemperature, SampleTopA, SampleTopK, SampleTopP, SampleTypical,
};

verus! {

/// Errors of the chain builder.
#[derive(Debug)]
pub enum BuildSamplersError {
    /// No slot with the given name.
    UnknownSlot(String),
    /// The named slot is static and cannot be configured.
    CannotConfigureStatic(String),
    /// Configuring the named slot's sampler failed.
    ConfigureFailed { name: String, err: ConfigureSamplerError },
}

impl BuildSamplersError {
    /// A short description, in place of a `Display` implementation.
    pub fn message(&self) -> String {
        match self {
            BuildSamplersError::UnknownSlot(s) => s.clone(),
            BuildSamplersError::CannotConfigureStatic(s) => s.clone(),
            BuildSamplersError::ConfigureFailed { name, err: _ } => name.clone(),
        }
    }
}

/// A named position in a chain under construction. Building an instance
/// clones the slot's prototype sampler.
#[derive(Debug, Clone)]
pub enum SamplerSlot {
    /// Exactly one instance, built once from the prototype when the chain
    /// is assembled; not independently configurable.
    Static { proto: SamplerKind },
    /// Zero or one instance, lazily built on first configuration.
    Single { proto: SamplerKind, sampler: Option<SamplerKind> },
    /// Zero or more instances; every configuration call appends a freshly
    /// built, freshly configured instance.
    Chain { proto: SamplerKind, samplers: Vec<SamplerKind> },
}

impl SamplerSlot {
    pub fn new_static(proto: SamplerKind) -> (r: SamplerSlot)
        ensures
            r matches SamplerSlot::Static { .. },
    {
        SamplerSlot::Static { proto }
    }

    pub fn new_single(proto: SamplerKind, sampler: Option<SamplerKind>) -> (r: SamplerSlot)
        ensures
            r matches SamplerSlot::Single { .. },
    {
        SamplerSlot::Single { proto, sampler }
    }

    pub fn new_chain(proto: SamplerKind, samplers: Vec<SamplerKind>) -> (r: SamplerSlot)
        ensures
            r matches SamplerSlot::Chain { .. },
    {
        SamplerSlot::Chain { proto, samplers }
    }

    /// Populate an optional slot with a default-built instance: a single
    /// gets one if it has none, an empty chain gets its first, each a
    /// copy of the slot's prototype; a populated slot is left unchanged.
    pub fn ensure_present(&mut self)
        ensures
            (*old(self)) is Static ==> *final(self) == *old(self),
            (*old(self)) matches SamplerSlot::Single { proto: p0, sampler: s0 } ==> ((
            *final(self)) matches SamplerSlot::Single { proto: p1, sampler: Some(inst) } && p1
                == p0 && (match s0 {
                Some(e) => inst == e,
                None => kind_like(p0, inst),
            })),
            (*old(self)) matches SamplerSlot::Chain { proto: p0, samplers: v0 } ==> ((
            *final(self)) matches SamplerSlot::Chain { proto: p1, samplers: v1 } && p1 == p0 && (
            if v0@.len() > 0 {
                v1@ == v0@
            } else {
                v1@.len() == 1 && kind_like(p0, v1@[0])
            })),
    {
        match self {
            SamplerSlot::Single { proto, sampler } => {
                if sampler.is_none() {
                    *sampler = Some(proto.duplicate());
                }
            },
            SamplerSlot::Chain { proto, samplers } => {
                if samplers.len() == 0 {
                    let fresh = proto.duplicate();
                    samplers.push(fresh);
                }
            },
            SamplerSlot::Static { .. } => {},
        }
    }
}

/// The option text is valid for the stage's sampler: every
/// `:`-separated segment resolves and parses under that sampler's
/// option set. This depends only on the stage's variant.
pub open spec fn kind_text_ok(k: SamplerKind, text: Seq<char>) -> bool {
    match k {
        SamplerKind::FlatBias(_) => all_segs_ok::<SampleFlatBias>(text, 0),
        SamplerKind::Repetition(_) => all_segs_ok::<SampleRepetition>(text, 0),
        SamplerKind::FreqPresence(_) => all_segs_ok::<SampleFreqPresence>(text, 0),
        SamplerKind::SeqRepetition(_) => all_segs_ok::<SampleSeqRepetition>(text, 0),
        SamplerKind::TopK(_) => all_segs_ok::<SampleTopK>(text, 0),
        SamplerKind::TopP(_) => all_segs_ok::<SampleTopP>(text, 0),
        SamplerKind::MinP(_) => all_segs_ok::<SampleMinP>(text, 0),
        SamplerKind::TopA(_) => all_segs_ok::<SampleTopA>(text, 0),
        SamplerKind::TailFree(_) => all_segs_ok::<SampleTailFree>(text, 0),
        SamplerKind::LocallyTypical(_) => all_segs_ok::<SampleLocallyTypical>(text, 0),
        SamplerKind::Typical(_) => all_segs_ok::<SampleTypical>(text, 0),
        SamplerKind::Temperature(_) => all_segs_ok::<SampleTemperature>(text, 0),
        SamplerKind::Greedy(_) => all_segs_ok::<SampleGreedy>(text, 0),
        SamplerKind::RandDistrib(_) => all_segs_ok::<SampleRandDistrib>(text, 0),
        SamplerKind::Mirostat1(_) => all_segs_ok::<SampleMirostat1>(text, 0),
        SamplerKind::Mirostat2(_) => all_segs_ok::<SampleMirostat2>(text, 0),
    }
}

/// One configuration segment has been applied to the stage's sampler,
/// under that sampler's option set.
pub open spec fn kind_seg_applied(k: SamplerKind, seg: Seq<char>) -> bool {
    match k {
        SamplerKind::FlatBias(x) => segment_applied(x, seg),
        SamplerKind::Repetition(x) => segment_applied(x, seg),
        SamplerKind::FreqPresence(x) => segment_applied(x, seg),
        SamplerKind::SeqRepetition(x) => segment_applied(x, seg),
        SamplerKind::TopK(x) => segment_applied(x, seg),
        SamplerKind::TopP(x) => segment_applied(x, seg),
        SamplerKind::MinP(x) => segment_applied(x, seg),
        SamplerKind::TopA(x) => segment_applied(x, seg),
        SamplerKind::TailFree(x) => segment_applied(x, seg),
        SamplerKind::LocallyTypical(x) => segment_applied(x, seg),
        SamplerKind::Typical(x) => segment_applied(x, seg),
        SamplerKind::Temperature(x) => segment_applied(x, seg),
        SamplerKind::Greedy(x) => segment_applied(x, seg),
        SamplerKind::RandDistrib(x) => segment_applied(x, seg),
        SamplerKind::Mirostat1(x) => segment_applied(x, seg),
        SamplerKind::Mirostat2(x) => segment_applied(x, seg),
    }
}

/// The whole text has been applied to the stage's sampler, segment by
/// segment, under that sampler's functional write model.
pub open spec fn kind_segs_effect(k0: SamplerKind, k1: SamplerKind, text: Seq<char>) -> bool {
    match (k0, k1) {
        (SamplerKind::FlatBias(x0), SamplerKind::FlatBias(x1)) => segs_effect(x0, x1, text, 0),
        (SamplerKind::Repetition(x0), SamplerKind::Repetition(x1)) => segs_effect(x0, x1, text, 0),
        (SamplerKind::FreqPresence(x0), SamplerKind::FreqPresence(x1)) => segs_effect(
            x0,
            x1,
            text,
            0,
        ),
        (SamplerKind::SeqRepetition(x0), SamplerKind::SeqRepetition(x1)) => segs_effect(
            x0,
            x1,
            text,
            0,
        ),
        (SamplerKind::TopK(x0), SamplerKind::TopK(x1)) => segs_effect(x0, x1, text, 0),
        (SamplerKind::TopP(x0), SamplerKind::TopP(x1)) => segs_effect(x0, x1, text, 0),
        (SamplerKind::MinP(x0), SamplerKind::MinP(x1)) => segs_effect(x0, x1, text, 0),
        (SamplerKind::TopA(x0), SamplerKind::TopA(x1)) => segs_effect(x0, x1, text, 0),
        (SamplerKind::TailFree(x0), SamplerKind::TailFree(x1)) => segs_effect(x0, x1, text, 0),
        (SamplerKind::LocallyTypical(x0), SamplerKind::LocallyTypical(x1)) => segs_effect(
            x0,
            x1,
            text,
            0,
        ),
        (SamplerKind::Typical(x0), SamplerKind::Typical(x1)) => segs_effect(x0, x1, text, 0),
        (SamplerKind::Temperature(x0), SamplerKind::Temperature(x1)) => segs_effect(
            x0,
            x1,
            text,
            0,
        ),
        (SamplerKind::Greedy(x0), SamplerKind::Greedy(x1)) => segs_effect(x0, x1, text, 0),
        (SamplerKind::RandDistrib(x0), SamplerKind::RandDistrib(x1)) => segs_effect(
            x0,
            x1,
            text,
            0,
        ),
        (SamplerKind::Mirostat1(x0), SamplerKind::Mirostat1(x1)) => segs_effect(x0, x1, text, 0),
        (SamplerKind::Mirostat2(x0), SamplerKind::Mirostat2(x1)) => segs_effect(x0, x1, text, 0),
        _ => false,
    }
}

/// Like variants see the same texts as valid: validity reads only the
/// option set, which the variant fixes.
pub proof fn lemma_kind_text_ok_alike(a: SamplerKind, b: SamplerKind, text: Seq<char>)
    requires
        same_variant(&a, &b),
    ensures
        kind_text_ok(a, text) == kind_text_ok(b, text),
{
}

/// Configure one sampler, whatever its kind, from option text: the call
/// succeeds exactly when the text is valid for the stage's sampler, and
/// a colon-free text with content ends up applied as one segment.
pub fn configure_sampler_kind(s: &mut SamplerKind, text: &str) -> (r: Result<
    (),
    ConfigureSamplerError,
>)
    ensures
        same_variant(old(s), final(s)),
        r.is_ok() <==> kind_text_ok(*old(s), text@),
        r.is_ok() ==> kind_segs_effect(*old(s), *final(s), text@),
        (forall|j: int| 0 <= j < text@.len() ==> (#[trigger] text@[j]) != ':') ==> {
            &&& (trimmed(text@).len() == 0 ==> r.is_ok() && *final(s) == *old(s))
            &&& ((r.is_ok() && trimmed(text@).len() > 0) ==> kind_seg_applied(*final(s), text@))
        },
{
    match s {
        SamplerKind::FlatBias(x) => configure(x, text),
        SamplerKind::Repetition(x) => configure(x, text),
        SamplerKind::FreqPresence(x) => configure(x, text),
        SamplerKind::SeqRepetition(x) => configure(x, text),
        SamplerKind::TopK(x) => configure(x, text),
        SamplerKind::TopP(x) => configure(x, text),
        SamplerKind::MinP(x) => configure(x, text),
        SamplerKind::TopA(x) => configure(x, text),
        SamplerKind::TailFree(x) => configure(x, text),
        SamplerKind::LocallyTypical(x) => configure(x, text),
        SamplerKind::Typical(x) => configure(x, text),
        SamplerKind::Temperature(x) => configure(x, text),
        SamplerKind::Greedy(x) => configure(x, text),
        SamplerKind::RandDistrib(x) => configure(x, text),
        SamplerKind::Mirostat1(x) => configure(x, text),
        SamplerKind::Mirostat2(x) => configure(x, text),
    }
}

/// Texts are equal as character sequences.
fn string_eq_str(a: &String, b: &str) -> (r: bool)
    ensures
        r == (a@ == b@),
{
    let av = str_chars(a.as_str());
    let bv = str_chars(b);
    let n = av.len();
    if n != bv.len() {
        return false;
    }
    let mut i: usize = 0;
    while i < n
        invariant
            0 <= i <= n,
            n == av@.len(),
            n == bv@.len(),
            av@ == a@,
            bv@ == b@,
            forall|j: int| 0 <= j < i ==> (#[trigger] av@[j]) == bv@[j],
        decreases n - i,
    {
        if av[i] != bv[i] {
            return false;
        }
        i = i + 1;
    }
    proof {
        assert(a@ =~= b@);
    }
    true
}

/// The stage a configuration call acts on: a single slot's existing
/// instance if it has one, else the slot's prototype.
pub open spec fn slot_config_target(slot: SamplerSlot) -> SamplerKind {
    match slot {
        SamplerSlot::Static { proto } => proto,
        SamplerSlot::Single { proto, sampler } => match sampler {
            Some(e) => e,
            None => proto,
        },
        SamplerSlot::Chain { proto, .. } => proto,
    }
}

/// The first slot carrying the name, or the length when none does.
pub open spec fn slot_index(slots: Seq<(String, SamplerSlot)>, name: Seq<char>, i: int) -> int
    decreases slots.len() - i when 0 <= i <= slots.len()
{
    if i >= slots.len() {
        slots.len() as int
    } else if slots[i].0@ == name {
        i
    } else {
        slot_index(slots, name, i + 1)
    }
}

/// How many samplers the slots contribute when flattened: one per static
/// slot, one per filled single, and all of a chain slot's instances.
pub open spec fn flat_len(slots: Seq<(String, SamplerSlot)>) -> int
    decreases slots.len(),
{
    if slots.len() == 0 {
        0
    } else {
        flat_len(slots.drop_last()) + (match slots.last().1 {
            SamplerSlot::Static { .. } => 1int,
            SamplerSlot::Single { sampler, .. } => if sampler is Some {
                1int
            } else {
                0int
            },
            SamplerSlot::Chain { samplers, .. } => samplers@.len() as int,
        })
    }
}

/// The samplers the slots contribute when flattened, in registration
/// order: each static slot its prototype, each filled single its
/// instance, and each chain slot all its instances in append order.
pub open spec fn flat_seq(slots: Seq<(String, SamplerSlot)>) -> Seq<SamplerKind>
    decreases slots.len(),
{
    if slots.len() == 0 {
        Seq::empty()
    } else {
        flat_seq(slots.drop_last()) + (match slots.last().1 {
            SamplerSlot::Static { proto } => seq![proto],
            SamplerSlot::Single { sampler, .. } => match sampler {
                Some(e) => seq![e],
                None => Seq::empty(),
            },
            SamplerSlot::Chain { samplers, .. } => samplers@,
        })
    }
}

/// The flattened sequence carries as many samplers as the slot count
/// says.
pub proof fn lemma_flat_seq_len(slots: Seq<(String, SamplerSlot)>)
    ensures
        flat_seq(slots).len() == flat_len(slots),
    decreases slots.len(),
{
    if slots.len() > 0 {
        lemma_flat_seq_len(slots.drop_last());
    }
}

/// Every stage value is alike itself.
pub proof fn lemma_kind_like_refl(k: SamplerKind)
    ensures
        kind_like(k, k),
{
}

/// Registry of named slots, flattened into one chain in registration
/// order once configured.
#[derive(Debug)]
pub struct SamplerChainBuilder {
    pub slots: Vec<(String, SamplerSlot)>,
}

impl SamplerChainBuilder {
    pub fn new() -> (r: SamplerChainBuilder)
        ensures
            r.slots@.len() == 0,
    {
        SamplerChainBuilder { slots: Vec::new() }
    }

    /// Build from a list of named slots, in order.
    pub fn from_slots(slots: Vec<(String, SamplerSlot)>) -> (r: SamplerChainBuilder)
        ensures
            r.slots@ == slots@,
    {
        SamplerChainBuilder { slots }
    }

    /// Append a named slot.
    pub fn push_slot(&mut self, name: String, slot: SamplerSlot)
        ensures
            final(self).slots@ == old(self).slots@.push((name, slot)),
    {
        self.slots.push((name, slot));
    }

    /// Configure the named slot: an absent name or a static slot fails;
    /// a single slot lazily builds its instance and configures it; a chain
    /// slot appends a freshly built, freshly configured instance. A
    /// sampler-level failure is wrapped with the slot's name.
    pub fn configure(&mut self, name: &str, text: &str) -> (r: Result<(), BuildSamplersError>)
        ensures
            final(self).slots@.len() == old(self).slots@.len(),
            ({
                let ix = slot_index(old(self).slots@, name@, 0);
                &&& ((r matches Err(BuildSamplersError::UnknownSlot(_))) <==> ix
                    == old(self).slots@.len())
                &&& (ix < old(self).slots@.len() && (old(self).slots@[ix].1 is Static) ==> (
                r matches Err(BuildSamplersError::CannotConfigureStatic(_))))
                &&& (r.is_ok() ==> ix < old(self).slots@.len() && !(old(self).slots@[ix].1
                    is Static))
                &&& ((r matches Err(BuildSamplersError::ConfigureFailed { .. })) <==> (ix < old(
                    self,
                ).slots@.len() && !(old(self).slots@[ix].1 is Static) && r.is_err()))
                &&& (ix < old(self).slots@.len() && !(old(self).slots@[ix].1 is Static) ==> (
                r.is_ok() <==> kind_text_ok(slot_config_target(old(self).slots@[ix].1), text@)))
                &&& (r.is_ok() ==> {
                    let colon_free = forall|j: int|
                        0 <= j < text@.len() ==> (#[trigger] text@[j]) != ':';
                    &&& (forall|j: int|
                        0 <= j < old(self).slots@.len() && j != ix ==> final(self).slots@[j]
                            == (#[trigger] old(self).slots@[j]))
                    &&& final(self).slots@[ix].0 == old(self).slots@[ix].0
                    &&& (old(self).slots@[ix].1 matches SamplerSlot::Single {
                        proto: p0,
                        sampler: s0,
                    } ==> (final(self).slots@[ix].1 matches SamplerSlot::Single {
                        proto: p1,
                        sampler: Some(inst),
                    } && p1 == p0 && same_variant(
                        &slot_config_target(old(self).slots@[ix].1),
                        &inst,
                    ) && (match s0 {
                        Some(e) => kind_segs_effect(e, inst, text@),
                        None => exists|f: SamplerKind|
                            #![trigger kind_segs_effect(f, inst, text@)]
                            kind_like(p0, f) && kind_segs_effect(f, inst, text@),
                    }) && (colon_free && trimmed(text@).len() > 0 ==> kind_seg_applied(
                        inst,
                        text@,
                    )) && (colon_free && trimmed(text@).len() == 0 ==> (match s0 {
                        Some(e) => inst == e,
                        None => kind_like(p0, inst),
                    }))))
                    &&& (old(self).slots@[ix].1 matches SamplerSlot::Chain {
                        proto: p0,
                        samplers: s0,
                    } ==> (final(self).slots@[ix].1 matches SamplerSlot::Chain {
                        proto: p1,
                        samplers: s1,
                    } && p1 == p0 && s1@.len() == s0@.len() + 1 && (forall|j: int|
                        0 <= j < s0@.len() ==> s1@[j] == #[trigger] s0@[j]) && same_variant(
                        &p0,
                        &s1@.last(),
                    ) && (exists|f: SamplerKind|
                        #![trigger kind_segs_effect(f, s1@.last(), text@)]
                        kind_like(p0, f) && kind_segs_effect(f, s1@.last(), text@)) && (
                    colon_free && trimmed(text@).len() > 0 ==> kind_seg_applied(
                        s1@.last(),
                        text@,
                    )) && (colon_free && trimmed(text@).len() == 0 ==> kind_like(
                        p0,
                        s1@.last(),
                    ))))
                })
            }),
    {
        let n = self.slots.len();
        let mut i: usize = 0;
        while i < n
            invariant
                0 <= i <= n,
                n == self.slots@.len(),
                self.slots@ == old(self).slots@,
                slot_index(old(self).slots@, name@, 0) == slot_index(
                    old(self).slots@,
                    name@,
                    i as int,
                ),
            decreases n - i,
        {
            let hit = string_eq_str(&self.slots[i].0, name);
            if hit {
                let ghost ix = i as int;
                let (slot_name, mut slot) = self.slots.remove(i);
                let out = match &mut slot {
                    SamplerSlot::Static { .. } => {
                        Err(BuildSamplersError::CannotConfigureStatic(slot_name.clone()))
                    },
                    SamplerSlot::Single { proto, sampler } => {
                        match sampler {
                            Some(existing) => {
                                match configure_sampler_kind(existing, text) {
                                    Ok(()) => Ok(()),
                                    Err(e) => Err(
                                        BuildSamplersError::ConfigureFailed {
                                            name: slot_name.clone(),
                                            err: e,
                                        },
                                    ),
                                }
                            },
                            None => {
                                let mut fresh = proto.duplicate();
                                proof {
                                    lemma_kind_text_ok_alike(*proto, fresh, text@);
                                }
                                match configure_sampler_kind(&mut fresh, text) {
                                    Ok(()) => {
                                        *sampler = Some(fresh);
                                        Ok(())
                                    },
                                    Err(e) => Err(
                                        BuildSamplersError::ConfigureFailed {
                                            name: slot_name.clone(),
                                            err: e,
                                        },
                                    ),
                                }
                            },
                        }
                    },
                    SamplerSlot::Chain { proto, samplers } => {
                        let mut fresh = proto.duplicate();
                        proof {
                            lemma_kind_text_ok_alike(*proto, fresh, text@);
                        }
                        match configure_sampler_kind(&mut fresh, text) {
                            Ok(()) => {
                                samplers.push(fresh);
                                Ok(())
                            },
                            Err(e) => Err(
                                BuildSamplersError::ConfigureFailed {
                                    name: slot_name.clone(),
                                    err: e,
                                },
                            ),
                        }
                    },
                };
                self.slots.insert(i, (slot_name, slot));
                proof {
                    assert(slot_index(old(self).slots@, name@, ix) == ix);
                    assert forall|j: int|
                        0 <= j < old(self).slots@.len() && j != ix implies self.slots@[j] == (
                    #[trigger] old(self).slots@[j]) by {
                        assert(self.slots@ =~= old(self).slots@.update(
                            ix,
                            self.slots@[ix],
                        ));
                    }
                }
                return match out {
                    Ok(()) => Ok(()),
                    Err(e) => Err(e),
                };
            }
            i = i + 1;
        }
        Err(BuildSamplersError::UnknownSlot(name.to_string()))
    }

    /// Flatten all slots, in registration order, into one chain: a static
    /// slot contributes one freshly built copy of its prototype, a single
    /// its instance if present, and a chain slot all its instances in
    /// append order; `flat_seq` names the result stage by stage.
    pub fn into_chain(self) -> (r: SamplerChain)
        ensures
            r.token is None,
            r.samplers@.len() == flat_len(self.slots@),
            r.samplers@.len() == flat_seq(self.slots@).len(),
            forall|k: int|
                0 <= k < r.samplers@.len() ==> kind_like(
                    flat_seq(self.slots@)[k],
                    #[trigger] r.samplers@[k],
                ),
    {
        let mut chain = SamplerChain::new();
        let mut slots = self.slots;
        let ghost orig = slots@;
        let n = slots.len();
        let mut i: usize = 0;
        proof {
            assert(orig.subrange(0, 0) =~= Seq::<(String, SamplerSlot)>::empty());
        }
        while i < n
            invariant
                0 <= i <= n,
                n == slots@.len(),
                n == orig.len(),
                forall|j: int| i <= j < n ==> slots@[j] == #[trigger] orig[j],
                chain.token is None,
                chain.samplers@.len() == flat_len(orig.subrange(0, i as int)),
                chain.samplers@.len() == flat_seq(orig.subrange(0, i as int)).len(),
                forall|k: int|
                    0 <= k < chain.samplers@.len() ==> kind_like(
                        flat_seq(orig.subrange(0, i as int))[k],
                        #[trigger] chain.samplers@[k],
                    ),
            decreases n - i,
        {
            let ghost prefix = orig.subrange(0, i as int);
            let (_, slot) = slots.remove(i);
            proof {
                let pre = orig.subrange(0, i + 1);
                assert(pre.drop_last() =~= prefix);
                assert(pre.last() == orig[i as int]);
            }
            match slot {
                SamplerSlot::Static { proto } => {
                    let fresh = proto.duplicate();
                    chain.push_sampler(fresh);
                    proof {
                        assert(flat_seq(orig.subrange(0, i + 1)) =~= flat_seq(prefix).push(
                            proto,
                        ));
                    }
                    slots.insert(i, ("".to_string(), SamplerSlot::Static { proto }));
                },
                SamplerSlot::Single { proto, sampler } => {
                    match sampler {
                        Some(e) => {
                            proof {
                                lemma_kind_like_refl(e);
                                assert(flat_seq(orig.subrange(0, i + 1)) =~= flat_seq(
                                    prefix,
                                ).push(e));
                            }
                            chain.push_sampler(e);
                        },
                        None => {
                            proof {
                                assert(flat_seq(orig.subrange(0, i + 1)) =~= flat_seq(prefix));
                            }
                        },
                    }
                    slots.insert(i, ("".to_string(), SamplerSlot::Static { proto }));
                },
                SamplerSlot::Chain { proto, samplers } => {
                    let mut rest = samplers;
                    let ghost inner = rest@;
                    let ghost base = chain.samplers@.len();
                    let mut j: usize = 0;
                    let m = rest.len();
                    proof {
                        assert(rest@ =~= inner.subrange(0, m as int));
                        assert(flat_seq(orig.subrange(0, i + 1)) =~= flat_seq(prefix) + inner);
                    }
                    while j < m
                        invariant
                            0 <= j <= m,
                            m == inner.len(),
                            rest@ == inner.subrange(j as int, m as int),
                            chain.token is None,
                            chain.samplers@.len() == base + j,
                            forall|k: int|
                                0 <= k < base ==> kind_like(
                                    flat_seq(orig.subrange(0, i as int))[k],
                                    #[trigger] chain.samplers@[k],
                                ),
                            forall|k: int|
                                0 <= k < j ==> #[trigger] chain.samplers@[base + k] == inner[k],
                        decreases m - j,
                    {
                        let e = rest.remove(0);
                        proof {
                            assert(rest@ =~= inner.subrange(j + 1, m as int));
                        }
                        chain.push_sampler(e);
                        j = j + 1;
                    }
                    proof {
                        assert forall|k: int|
                            0 <= k < chain.samplers@.len() implies kind_like(
                            flat_seq(orig.subrange(0, i + 1))[k],
                            #[trigger] chain.samplers@[k],
                        ) by {
                            assert(flat_seq(orig.subrange(0, i + 1)) == flat_seq(
                                orig.subrange(0, i as int),
                            ) + inner);
                            if k >= base {
                                assert(flat_seq(orig.subrange(0, i + 1))[k] == inner[k - base]);
                                assert(chain.samplers@[base + (k - base)] == inner[k - base]);
                                assert(chain.samplers@[k] == inner[k - base]);
                                lemma_kind_like_refl(inner[k - base]);
                            } else {
                                assert(flat_seq(orig.subrange(0, i + 1))[k] == flat_seq(
                                    orig.subrange(0, i as int),
                                )[k]);
                            }
                        }
                    }
                    slots.insert(i, ("".to_string(), SamplerSlot::Static { proto }));
                },
            }
            i = i + 1;
        }
        proof {
            assert(orig.subrange(0, n as int) =~= orig);
        }
        chain
    }
}

} // verus!
