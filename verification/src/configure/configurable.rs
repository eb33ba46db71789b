use vstd::prelude::*;

use crate::configure::metadata::{key_matches, match_count, SamplerMetadata, SamplerOptionMetadata, SamplerOptions};
use crate::configure::value::{colon_index, seg_key, seg_val, trimmed, ConfigureSamplerError, SamplerOptionType, SamplerOptionValue};
use crate::fixed::Fx;
use crate::samplers::{
    SampleFlatBias, SampleFreqPresence, SampleGreedy, SampleLocallyTypical, SampleMinP,
    SampleMirostat1, SampleMirostat2, SampleRandDistrib, SampleRepetition, SampleSeqRepetition,
    SampleTailFree, SampleTemperature, SampleTopA, SampleTopK, SampleTopP, SampleTypical,
};

verus! {

/// A sampler whose options can be read and written by key. "Configurable"
/// means the sampler declares metadata for its options and exposes typed
/// access to each; setting `i` and reading `i` back yields the value just
/// written.
pub trait ConfigurableSampler: Sized {
    /// The declared option names, as character sequences.
    spec fn spec_keys() -> Seq<Seq<char>>;

    /// The declared option kinds, one per name.
    spec fn spec_kinds() -> Seq<SamplerOptionType>;

    /// The current (widened) value of option `i`.
    spec fn spec_option_at(&self, i: int) -> SamplerOptionValue;

    /// The declared options, for resolution by name.
    fn sampler_options(&self) -> (r: SamplerOptions)
        ensures
            r.options@.len() == Self::spec_keys().len(),
            Self::spec_kinds().len() == Self::spec_keys().len(),
            forall|i: int|
                0 <= i < r.options@.len() ==> (#[trigger] r.options@[i]).key@
                    == Self::spec_keys()[i] && r.options@[i].option_type == Self::spec_kinds()[i],
    ;

    /// The sampler's metadata: name, optional description, and options.
    fn sampler_metadata(&self) -> (r: SamplerMetadata)
        ensures
            r.options@.len() == Self::spec_keys().len(),
            forall|i: int|
                0 <= i < r.options@.len() ==> (#[trigger] r.options@[i]).key@
                    == Self::spec_keys()[i] && r.options@[i].option_type == Self::spec_kinds()[i],
    ;

    /// Read option `i`.
    fn get_option_at(&self, i: usize) -> (r: SamplerOptionValue)
        requires
            i < Self::spec_keys().len(),
        ensures
            r == self.spec_option_at(i as int),
    ;

    /// Whether option `i` accepts the value: the kinds must agree and the
    /// value must fit the concrete field. Acceptance does not depend on
    /// the sampler's current state.
    spec fn spec_accepts(i: int, v: SamplerOptionValue) -> bool;

    /// The sampler after an accepted write to option `i`: the named field
    /// takes the value and everything else is untouched, except where a
    /// write moves a dependent option (the adaptive samplers' target
    /// resets their learning state).
    spec fn spec_after_set(pre: Self, i: int, v: SamplerOptionValue) -> Self;

    /// Options of the text kind accept every text value.
    proof fn accepts_text(i: int, v: SamplerOptionValue)
        requires
            0 <= i < Self::spec_kinds().len(),
            Self::spec_kinds()[i] == SamplerOptionType::String,
            v is String,
        ensures
            Self::spec_accepts(i, v),
    ;

    /// Write option `i`. Succeeds exactly when the option accepts the
    /// value (the kinds agree and the value fits the concrete field); on
    /// success the option reads back as the value just written (a write
    /// may also move a dependent option, as the adaptive samplers' target
    /// does their learning state). A failed write changes nothing.
    fn set_option_at(&mut self, i: usize, v: SamplerOptionValue) -> (r: Result<
        (),
        ConfigureSamplerError,
    >)
        requires
            i < Self::spec_keys().len(),
        ensures
            r.is_ok() <==> Self::spec_accepts(i as int, v),
            r.is_ok() ==> *final(self) == Self::spec_after_set(*old(self), i as int, v),
            r.is_ok() ==> final(self).spec_option_at(i as int) == v,
            r.is_err() ==> *final(self) == *old(self),
            r.is_ok() ==> v.spec_kind() == Self::spec_kinds()[i as int],
    ;
}

/// The key resolves to exactly one declared option: it is a prefix of one
/// name and of no other.
pub open spec fn resolves_uniquely(keys: Seq<Seq<char>>, k: Seq<char>) -> bool {
    exists|i: int|
        0 <= i < keys.len() && key_matches(k, #[trigger] keys[i]) && (forall|j: int|
            0 <= j < keys.len() && j != i ==> !key_matches(k, #[trigger] keys[j]))
}

/// Resolution failure in the metadata list means the key does not resolve
/// uniquely against the declared names.
proof fn lemma_no_resolution(opts: Seq<SamplerOptionMetadata>, keys: Seq<Seq<char>>, k: Seq<char>)
    requires
        opts.len() == keys.len(),
        forall|i: int| 0 <= i < opts.len() ==> (#[trigger] opts[i]).key@ == keys[i],
        match_count(opts, k, opts.len() as int) != 1,
    ensures
        !resolves_uniquely(keys, k),
{
    let n = opts.len() as int;
    if match_count(opts, k, n) == 0 {
        crate::configure::metadata::lemma_match_count_zero(opts, k, n);
        assert forall|i: int| 0 <= i < keys.len() implies !key_matches(k, #[trigger] keys[i]) by {
            assert(opts[i].key@ == keys[i]);
        }
    } else if match_count(opts, k, n) >= 2 {
        crate::configure::metadata::lemma_match_count_two(opts, k, n);
        let (a, b) = choose|a: int, b: int|
            0 <= a < b < n && key_matches(k, (#[trigger] opts[a]).key@) && key_matches(
                k,
                (#[trigger] opts[b]).key@,
            );
        assert(key_matches(k, keys[a]) && key_matches(k, keys[b]));
        if resolves_uniquely(keys, k) {
            let i = choose|i: int|
                0 <= i < keys.len() && key_matches(k, #[trigger] keys[i]) && (forall|j: int|
                    0 <= j < keys.len() && j != i ==> !key_matches(k, #[trigger] keys[j]));
            assert(a == i || !key_matches(k, keys[a]));
            assert(b == i || !key_matches(k, keys[b]));
            assert(false);
        }
    } else {
        crate::configure::metadata::lemma_match_count_nonneg_pub(opts, k, n);
    }
}

/// Resolve a key and write the value through the matching option: the
/// call succeeds exactly when the key resolves uniquely and that option
/// accepts the value, and then the resolved option reads back as the
/// value written.
pub fn set_option<S: ConfigurableSampler>(s: &mut S, key: &str, v: SamplerOptionValue) -> (r:
    Result<(), ConfigureSamplerError>)
    ensures
        r.is_ok() <==> exists|i: int|
            0 <= i < S::spec_keys().len() && key_matches(trimmed(key@), #[trigger] S::spec_keys()[i])
                && (forall|j: int|
                0 <= j < S::spec_keys().len() && j != i ==> !key_matches(
                    trimmed(key@),
                    #[trigger] S::spec_keys()[j],
                )) && S::spec_accepts(i, v),
        r.is_ok() ==> exists|i: int|
            0 <= i < S::spec_keys().len() && key_matches(trimmed(key@), #[trigger] S::spec_keys()[i])
                && final(s).spec_option_at(i) == v && *final(s) == S::spec_after_set(*old(s), i, v)
                && (forall|j: int|
                0 <= j < S::spec_keys().len() && j != i ==> !key_matches(
                    trimmed(key@),
                    #[trigger] S::spec_keys()[j],
                )),
        r.is_err() ==> *final(s) == *old(s),
{
    let ghost k = trimmed(key@);
    let opts = s.sampler_options();
    let idx = match opts.find_option_definition(key) {
        Ok(i) => i,
        Err(e) => {
            proof {
                lemma_no_resolution(opts.options@, S::spec_keys(), k);
            }
            return Err(e);
        },
    };
    proof {
        assert(key_matches(k, S::spec_keys()[idx as int]));
        assert forall|j: int|
            0 <= j < S::spec_keys().len() && j != idx as int implies !key_matches(
            k,
            #[trigger] S::spec_keys()[j],
        ) by {
            assert(opts.options@[j].key@ == S::spec_keys()[j]);
        }
    }
    let out = s.set_option_at(idx, v);
    proof {
        if out.is_err() {
            if exists|i: int|
                0 <= i < S::spec_keys().len() && key_matches(k, #[trigger] S::spec_keys()[i]) && (
                forall|j: int|
                    0 <= j < S::spec_keys().len() && j != i ==> !key_matches(
                        k,
                        #[trigger] S::spec_keys()[j],
                    )) && S::spec_accepts(i, v) {
                let i = choose|i: int|
                    0 <= i < S::spec_keys().len() && key_matches(k, #[trigger] S::spec_keys()[i])
                        && (forall|j: int|
                        0 <= j < S::spec_keys().len() && j != i ==> !key_matches(
                            k,
                            #[trigger] S::spec_keys()[j],
                        )) && S::spec_accepts(i, v);
                assert(i == idx as int);
                assert(false);
            }
        }
    }
    out
}

/// Resolve a key and read the matching option's value. A read succeeds
/// exactly when the key resolves uniquely.
pub fn get_option<S: ConfigurableSampler>(s: &S, key: &str) -> (r: Result<
    SamplerOptionValue,
    ConfigureSamplerError,
>)
    ensures
        r.is_ok() <==> resolves_uniquely(S::spec_keys(), trimmed(key@)),
        r matches Ok(v) ==> exists|i: int|
            0 <= i < S::spec_keys().len() && key_matches(trimmed(key@), #[trigger] S::spec_keys()[i])
                && v == s.spec_option_at(i) && (forall|j: int|
                0 <= j < S::spec_keys().len() && j != i ==> !key_matches(
                    trimmed(key@),
                    #[trigger] S::spec_keys()[j],
                )),
        r matches Err(e) ==> ((e matches ConfigureSamplerError::UnknownOrBadType(_)) || (
        e matches ConfigureSamplerError::AmbiguousKey(_))),
{
    let opts = s.sampler_options();
    let idx = match opts.find_option_definition(key) {
        Ok(i) => i,
        Err(e) => {
            proof {
                lemma_no_resolution(opts.options@, S::spec_keys(), trimmed(key@));
                crate::configure::metadata::lemma_match_count_nonneg_pub(
                    opts.options@,
                    trimmed(key@),
                    opts.options@.len() as int,
                );
            }
            return Err(e);
        },
    };
    proof {
        assert(key_matches(trimmed(key@), S::spec_keys()[idx as int]));
        assert forall|j: int|
            0 <= j < S::spec_keys().len() && j != idx as int implies !key_matches(
            trimmed(key@),
            #[trigger] S::spec_keys()[j],
        ) by {
            assert(opts.options@[j].key@ == S::spec_keys()[j]);
        }
    }
    Ok(s.get_option_at(idx))
}

/// Every `:`-separated segment of the text, from `from` on, is valid for
/// the sampler.
pub open spec fn all_segs_ok<S: ConfigurableSampler>(text: Seq<char>, from: int) -> bool
    decreases text.len() - from when 0 <= from <= text.len()
{
    let j = colon_index(text, from);
    if j >= text.len() || j < from {
        seg_ok::<S>(text.subrange(from, text.len() as int))
    } else {
        seg_ok::<S>(text.subrange(from, j)) && all_segs_ok::<S>(text, j + 1)
    }
}

/// Update a sampler from text of the form `key1=value1:key2=value2:...`.
/// Each segment is trimmed; empty segments are skipped; a key may be any
/// unambiguous prefix of an option name, and a segment without `=` is a
/// bare value for a single unambiguous option. The first bad segment
/// aborts the call with its error, leaving earlier segments applied.
pub fn configure<S: ConfigurableSampler>(s: &mut S, text: &str) -> (r: Result<
    (),
    ConfigureSamplerError,
>)
    ensures
        r.is_ok() <==> all_segs_ok::<S>(text@, 0),
        r.is_ok() ==> segs_effect(*old(s), *final(s), text@, 0),
        (forall|j: int| 0 <= j < text@.len() ==> (#[trigger] text@[j]) != ':') ==> {
            &&& (r.is_ok() <==> seg_ok::<S>(text@))
            &&& (trimmed(text@).len() == 0 ==> r.is_ok() && *final(s) == *old(s))
            &&& ((r.is_ok() && trimmed(text@).len() > 0) ==> segment_applied(*final(s), text@))
        },
{
    let chars = crate::configure::value::str_chars(text);
    let n = chars.len();
    let mut start: usize = 0;
    let mut i: usize = 0;
    let ghost colon_free = forall|j: int| 0 <= j < text@.len() ==> (#[trigger] text@[j]) != ':';
    while i < n
        invariant
            0 <= start <= i <= n,
            n == chars@.len(),
            chars@ == text@,
            colon_free == (forall|j: int|
                0 <= j < text@.len() ==> (#[trigger] text@[j]) != ':'),
            colon_free ==> start == 0 && *s == *old(s),
            forall|q: int| start <= q < i ==> (#[trigger] text@[q]) != ':',
            all_segs_ok::<S>(text@, 0) <==> all_segs_ok::<S>(text@, start as int),
            forall|post: S|
                #[trigger] segs_effect::<S>(*s, post, text@, start as int) ==> segs_effect::<S>(
                    *old(s),
                    post,
                    text@,
                    0,
                ),
        decreases n - i,
    {
        if chars[i] == ':' {
            proof {
                lemma_colon_skip(text@, start as int, i as int);
                assert(colon_index(text@, start as int) == i as int);
            }
            let ghost s_before = *s;
            match apply_segment(s, &chars, start, i) {
                Ok(()) => {
                    proof {
                        assert forall|post: S|
                            #[trigger] segs_effect::<S>(*s, post, text@, i + 1) implies segs_effect::<
                        S>(*old(s), post, text@, 0) by {
                            assert(segment_effect::<S>(
                                s_before,
                                *s,
                                text@.subrange(start as int, i as int),
                            ));
                            assert(segs_effect::<S>(s_before, post, text@, start as int));
                        }
                    }
                },
                Err(e) => {
                    proof {
                        assert(!seg_ok::<S>(text@.subrange(start as int, i as int)));
                        assert(!all_segs_ok::<S>(text@, start as int));
                    }
                    return Err(e);
                },
            }
            proof {
                assert(seg_ok::<S>(text@.subrange(start as int, i as int)));
            }
            start = i + 1;
        }
        i = i + 1;
    }
    proof {
        lemma_colon_skip(text@, start as int, n as int);
        assert(colon_index(text@, start as int) == n as int);
        assert(all_segs_ok::<S>(text@, start as int) == seg_ok::<S>(
            text@.subrange(start as int, n as int),
        ));
        if colon_free {
            assert(chars@.subrange(0, n as int) =~= text@);
        }
    }
    let ghost s_before = *s;
    let out = apply_segment(s, &chars, start, n);
    proof {
        if out.is_ok() {
            assert(segment_effect::<S>(s_before, *s, text@.subrange(start as int, n as int)));
            assert(segs_effect::<S>(s_before, *s, text@, start as int));
            assert(segs_effect::<S>(*old(s), *s, text@, 0));
        }
    }
    out
}

/// A colon-free stretch pushes the next colon to its end.
proof fn lemma_colon_skip(text: Seq<char>, from: int, upto: int)
    requires
        0 <= from <= upto <= text.len(),
        forall|q: int| from <= q < upto ==> (#[trigger] text[q]) != ':',
    ensures
        colon_index(text, from) == if upto < text.len() && text[upto] == ':' {
            upto
        } else {
            colon_index(text, upto)
        },
    decreases upto - from,
{
    if from < upto {
        lemma_colon_skip(text, from + 1, upto);
    }
}

/// One configuration segment is valid for the sampler: it is all
/// whitespace (and is skipped), or its key resolves to exactly one option
/// whose kind reads the segment's value and accepts it.
pub open spec fn seg_ok<S: ConfigurableSampler>(seg: Seq<char>) -> bool {
    ||| trimmed(seg).len() == 0
    ||| exists|i: int|
        0 <= i < S::spec_keys().len() && key_matches(
            trimmed(seg_key(seg)),
            #[trigger] S::spec_keys()[i],
        ) && (forall|j: int|
            0 <= j < S::spec_keys().len() && j != i ==> !key_matches(
                trimmed(seg_key(seg)),
                #[trigger] S::spec_keys()[j],
            )) && (match S::spec_kinds()[i] {
            SamplerOptionType::String => true,
            _ => (match crate::configure::value::parse_value_spec(
                S::spec_kinds()[i],
                seg_val(seg),
            ) {
                Some(pv) => S::spec_accepts(i, pv),
                None => false,
            }),
        })
}

/// One configuration segment's effect on the sampler: an all-whitespace
/// segment leaves it unchanged; otherwise the resolved option is written
/// with the segment's value, read by the option's kind, through the
/// sampler's functional write model.
pub open spec fn segment_effect<S: ConfigurableSampler>(pre: S, post: S, seg: Seq<char>) -> bool {
    if trimmed(seg).len() == 0 {
        post == pre
    } else {
        exists|i: int|
            0 <= i < S::spec_keys().len() && key_matches(
                trimmed(seg_key(seg)),
                #[trigger] S::spec_keys()[i],
            ) && (forall|j: int|
                0 <= j < S::spec_keys().len() && j != i ==> !key_matches(
                    trimmed(seg_key(seg)),
                    #[trigger] S::spec_keys()[j],
                )) && (match S::spec_kinds()[i] {
                SamplerOptionType::String => exists|t: String|
                    t@ == trimmed(seg_val(seg)) && post == #[trigger] S::spec_after_set(
                        pre,
                        i,
                        SamplerOptionValue::String(t),
                    ),
                _ => (match crate::configure::value::parse_value_spec(
                    S::spec_kinds()[i],
                    seg_val(seg),
                ) {
                    Some(pv) => post == S::spec_after_set(pre, i, pv),
                    None => false,
                }),
            })
    }
}

/// The text's segments from `from` on, applied one after another: the
/// sampler moves from `pre` to `post` through one intermediate state per
/// `:`-separated segment.
pub open spec fn segs_effect<S: ConfigurableSampler>(
    pre: S,
    post: S,
    text: Seq<char>,
    from: int,
) -> bool
    decreases text.len() - from when 0 <= from <= text.len()
{
    let j = colon_index(text, from);
    if j >= text.len() || j < from {
        segment_effect(pre, post, text.subrange(from, text.len() as int))
    } else {
        exists|mid: S|
            #![trigger segment_effect(pre, mid, text.subrange(from, j))]
            segment_effect(pre, mid, text.subrange(from, j)) && segs_effect(mid, post, text, j + 1)
    }
}

/// One configuration segment has been applied to the sampler: the part
/// before the segment's first `=` (or an empty key for a bare value)
/// resolves to exactly one option, and that option now holds exactly the
/// segment's value read by the option's kind (text kinds the trimmed
/// text).
pub open spec fn segment_applied<S: ConfigurableSampler>(post: S, seg: Seq<char>) -> bool {
    exists|i: int|
        0 <= i < S::spec_keys().len() && key_matches(
            trimmed(seg_key(seg)),
            #[trigger] S::spec_keys()[i],
        ) && (forall|j: int|
            0 <= j < S::spec_keys().len() && j != i ==> !key_matches(
                trimmed(seg_key(seg)),
                #[trigger] S::spec_keys()[j],
            )) && (match S::spec_kinds()[i] {
            SamplerOptionType::String => (match post.spec_option_at(i) {
                SamplerOptionValue::String(t) => t@ == trimmed(seg_val(seg)),
                _ => false,
            }),
            _ => Some(post.spec_option_at(i)) == crate::configure::value::parse_value_spec(
                S::spec_kinds()[i],
                seg_val(seg),
            ),
        })
}

/// Apply one `key=value` (or bare-value) segment. An all-whitespace
/// segment is skipped; otherwise the part before the first `=` (or an
/// empty key for a bare value) is resolved as an option key and the rest
/// is parsed by that option's kind and written. The call succeeds exactly
/// when the segment is valid, and afterward the resolved option holds
/// exactly the parsed value (text kinds the trimmed text).
fn apply_segment<S: ConfigurableSampler>(
    s: &mut S,
    chars: &Vec<char>,
    start: usize,
    end: usize,
) -> (r: Result<(), ConfigureSamplerError>)
    requires
        start <= end <= chars@.len(),
    ensures
        ({
            let seg = chars@.subrange(start as int, end as int);
            &&& (r.is_ok() <==> seg_ok::<S>(seg))
            &&& (trimmed(seg).len() == 0 ==> r.is_ok() && *final(s) == *old(s))
            &&& ((r.is_ok() && trimmed(seg).len() > 0) ==> segment_applied(*final(s), seg))
            &&& (r.is_ok() ==> segment_effect(*old(s), *final(s), seg))
        }),
{
    let ghost seg = chars@.subrange(start as int, end as int);
    // Copy the segment out.
    let mut whole: Vec<char> = Vec::new();
    let mut j: usize = start;
    while j < end
        invariant
            start <= j <= end <= chars@.len(),
            whole@ =~= chars@.subrange(start as int, j as int),
        decreases end - j,
    {
        whole.push(chars[j]);
        j = j + 1;
    }
    proof {
        assert(whole@ =~= seg);
    }
    let seg_trim = crate::configure::value::trim_chars(&whole);
    if seg_trim.len() == 0 {
        return Ok(());
    }
    // Split at the first '='.
    let seglen = whole.len();
    let mut eq: usize = seglen;
    let mut j: usize = 0;
    while j < seglen && eq == seglen
        invariant
            0 <= j <= seglen,
            eq <= seglen,
            seglen == whole@.len(),
            whole@ == seg,
            eq == seglen ==> crate::configure::value::eq_index(seg, 0)
                == crate::configure::value::eq_index(seg, j as int),
            eq < seglen ==> crate::configure::value::eq_index(seg, 0) == eq as int,
        decreases (seglen - j) * 2 + (if eq == seglen {
            1int
        } else {
            0int
        }),
    {
        if whole[j] == '=' {
            proof {
                assert(crate::configure::value::eq_index(seg, j as int) == j as int);
            }
            eq = j;
        } else {
            j = j + 1;
        }
    }
    proof {
        if eq == seglen {
            assert(j == seglen);
            assert(crate::configure::value::eq_index(seg, seglen as int) == seglen);
        }
        assert(crate::configure::value::eq_index(seg, 0) == eq as int || (eq == seglen
            && crate::configure::value::eq_index(seg, 0) == seglen));
    }
    // Build the key and value parts.
    let mut keyv: Vec<char> = Vec::new();
    let mut valv: Vec<char> = Vec::new();
    if eq < seglen {
        let mut j: usize = 0;
        while j < eq
            invariant
                0 <= j <= eq < seglen,
                seglen == whole@.len(),
                keyv@ =~= whole@.subrange(0, j as int),
            decreases eq - j,
        {
            keyv.push(whole[j]);
            j = j + 1;
        }
        let mut j: usize = eq + 1;
        while j < seglen
            invariant
                eq + 1 <= j <= seglen,
                seglen == whole@.len(),
                valv@ =~= whole@.subrange(eq as int + 1, j as int),
            decreases seglen - j,
        {
            valv.push(whole[j]);
            j = j + 1;
        }
        proof {
            assert(keyv@ =~= seg_key(seg));
            assert(valv@ =~= seg_val(seg));
        }
    } else {
        let mut j: usize = 0;
        while j < seglen
            invariant
                0 <= j <= seglen,
                seglen == whole@.len(),
                valv@ =~= whole@.subrange(0, j as int),
            decreases seglen - j,
        {
            valv.push(whole[j]);
            j = j + 1;
        }
        proof {
            assert(valv@ =~= seg);
            assert(valv@ =~= seg_val(seg));
            assert(keyv@ =~= seg_key(seg));
        }
    }
    let key_s = crate::configure::value::chars_to_string(&keyv);
    let val_s = crate::configure::value::chars_to_string(&valv);
    let ghost kk = trimmed(seg_key(seg));
    let opts = s.sampler_options();
    let idx = match opts.find_option_definition(key_s.as_str()) {
        Ok(ix) => ix,
        Err(e) => {
            proof {
                lemma_no_resolution(opts.options@, S::spec_keys(), kk);
                if seg_ok::<S>(seg) {
                    let i = choose|i: int|
                        0 <= i < S::spec_keys().len() && key_matches(
                            kk,
                            #[trigger] S::spec_keys()[i],
                        ) && (forall|j: int|
                            0 <= j < S::spec_keys().len() && j != i ==> !key_matches(
                                kk,
                                #[trigger] S::spec_keys()[j],
                            )) && (match S::spec_kinds()[i] {
                            SamplerOptionType::String => true,
                            _ => (match crate::configure::value::parse_value_spec(
                                S::spec_kinds()[i],
                                seg_val(seg),
                            ) {
                                Some(pv) => S::spec_accepts(i, pv),
                                None => false,
                            }),
                        });
                    assert(resolves_uniquely(S::spec_keys(), kk));
                    assert(false);
                }
            }
            return Err(e);
        },
    };
    proof {
        assert(key_matches(kk, S::spec_keys()[idx as int]));
        assert forall|j: int|
            0 <= j < S::spec_keys().len() && j != idx as int implies !key_matches(
            kk,
            #[trigger] S::spec_keys()[j],
        ) by {
            assert(opts.options@[j].key@ == S::spec_keys()[j]);
        }
    }
    let kind = opts.options[idx].option_type;
    let parsed = SamplerOptionValue::parse_value(kind, val_s.as_str());
    proof {
        // The parse result agrees with the value grammar's reading.
        lemma_parse_matches_spec::<S>(idx as int, kind, valv@, parsed);
    }
    let v = match parsed {
        Ok(v) => v,
        Err(e) => {
            proof {
                if seg_ok::<S>(seg) {
                    let i = seg_ok_witness::<S>(seg);
                    assert(i == idx as int);
                    assert(false);
                }
            }
            return Err(e);
        },
    };
    let out = s.set_option_at(idx, v);
    proof {
        assert(S::spec_kinds()[idx as int] == kind);
        if out.is_ok() {
            assert(seg_ok::<S>(seg)) by {
                assert(match S::spec_kinds()[idx as int] {
                    SamplerOptionType::String => true,
                    _ => (match crate::configure::value::parse_value_spec(
                        S::spec_kinds()[idx as int],
                        seg_val(seg),
                    ) {
                        Some(pv) => S::spec_accepts(idx as int, pv),
                        None => false,
                    }),
                });
            }
        } else {
            if seg_ok::<S>(seg) {
                let i = seg_ok_witness::<S>(seg);
                assert(i == idx as int);
                if S::spec_kinds()[idx as int] is String {
                    S::accepts_text(idx as int, v);
                    assert(false);
                } else {
                    assert(false);
                }
            }
        }
    }
    match out {
        Ok(()) => Ok(()),
        Err(e) => Err(e),
    }
}

/// The unique matching option of a valid, nonempty segment.
spec fn seg_ok_witness<S: ConfigurableSampler>(seg: Seq<char>) -> int {
    choose|i: int|
        0 <= i < S::spec_keys().len() && key_matches(
            trimmed(seg_key(seg)),
            #[trigger] S::spec_keys()[i],
        ) && (forall|j: int|
            0 <= j < S::spec_keys().len() && j != i ==> !key_matches(
                trimmed(seg_key(seg)),
                #[trigger] S::spec_keys()[j],
            )) && (match S::spec_kinds()[i] {
            SamplerOptionType::String => true,
            _ => (match crate::configure::value::parse_value_spec(
                S::spec_kinds()[i],
                seg_val(seg),
            ) {
                Some(pv) => S::spec_accepts(i, pv),
                None => false,
            }),
        })
}

/// The executable parse agrees with the value grammar's reading: success
/// coincides with the grammar producing a value, and the values agree.
proof fn lemma_parse_matches_spec<S: ConfigurableSampler>(
    i: int,
    kind: SamplerOptionType,
    raw: Seq<char>,
    r: Result<SamplerOptionValue, ConfigureSamplerError>,
)
    requires
        ({
            let k = trimmed(raw);
            match kind {
                SamplerOptionType::UInt => {
                    &&& (r.is_ok() <==> (k.len() > 0 && crate::configure::value::all_digits(k)
                        && crate::configure::value::digits_val(k) <= u64::MAX))
                    &&& (r matches Ok(v) ==> (v matches SamplerOptionValue::UInt(u)
                        && u as int == crate::configure::value::digits_val(k)))
                },
                SamplerOptionType::Float => {
                    &&& (r.is_ok() <==> crate::configure::value::parse_fx_spec(k) is Some)
                    &&& (r matches Ok(v) ==> (v matches SamplerOptionValue::Float(x) && Some(
                        x.bits as int,
                    ) == crate::configure::value::parse_fx_spec(k)))
                },
                SamplerOptionType::Bool => {
                    &&& (r.is_ok() <==> crate::configure::value::parse_bool_spec(k) is Some)
                    &&& (r matches Ok(v) ==> (v matches SamplerOptionValue::Bool(b) && Some(b)
                        == crate::configure::value::parse_bool_spec(k)))
                },
                SamplerOptionType::String => r matches Ok(v) && (v matches
                SamplerOptionValue::String(t) && t@ == k),
            }
        }),
    ensures
        kind is String ==> r.is_ok(),
        !(kind is String) ==> (r.is_ok() <==> crate::configure::value::parse_value_spec(
            kind,
            raw,
        ) is Some),
        !(kind is String) && r is Ok ==> Some(r.unwrap())
            == crate::configure::value::parse_value_spec(kind, raw),
{
    let k = trimmed(raw);
    match kind {
        SamplerOptionType::UInt => {
            if r is Ok {
                let v = r.unwrap();
                assert(crate::configure::value::digits_val(k) as u64 as int
                    == crate::configure::value::digits_val(k)) by {
                    crate::configure::value::lemma_digits_val_in_u64(k);
                }
            }
        },
        SamplerOptionType::Float => {
            if r is Ok {
            }
        },
        _ => {},
    }
}




impl ConfigurableSampler for SampleTopK {
    open spec fn spec_keys() -> Seq<Seq<char>> {
        seq!["k"@, "min_keep"@]
    }

    open spec fn spec_kinds() -> Seq<SamplerOptionType> {
        seq![SamplerOptionType::UInt, SamplerOptionType::UInt]
    }

    open spec fn spec_option_at(&self, i: int) -> SamplerOptionValue {
        if i == 0 {
            SamplerOptionValue::UInt(self.k as u64)
        } else
        if i == 1 {
            SamplerOptionValue::UInt(self.min_keep as u64)
        } else {
            SamplerOptionValue::Bool(false)
        }
    }

    open spec fn spec_accepts(i: int, v: SamplerOptionValue) -> bool {
        if i == 0 {
            v matches SamplerOptionValue::UInt(u) && u <= usize::MAX as u64
        } else
        if i == 1 {
            v matches SamplerOptionValue::UInt(u) && u <= usize::MAX as u64
        } else {
            false
        }
    }

    open spec fn spec_after_set(pre: Self, i: int, v: SamplerOptionValue) -> Self {
        if i == 0 {
            SampleTopK {
                k: (match v {
                    SamplerOptionValue::UInt(u) => u as usize,
                    _ => pre.k,
                }),
                ..pre
            }
        } else
        if i == 1 {
            SampleTopK {
                min_keep: (match v {
                    SamplerOptionValue::UInt(u) => u as usize,
                    _ => pre.min_keep,
                }),
                ..pre
            }
        } else {
            pre
        }
    }

    proof fn accepts_text(i: int, v: SamplerOptionValue) {
    }

    fn sampler_options(&self) -> (r: SamplerOptions) {
        let mut md: Vec<SamplerOptionMetadata> = Vec::new();
        md.push(SamplerOptionMetadata { key: "k", description: None, option_type: SamplerOptionType::UInt });
        md.push(SamplerOptionMetadata { key: "min_keep", description: None, option_type: SamplerOptionType::UInt });
        proof {
            assert(md@[0].key@ == Self::spec_keys()[0]);
            assert(md@[1].key@ == Self::spec_keys()[1]);
        }
        SamplerOptions::from_metadata(md)
    }

    fn sampler_metadata(&self) -> (r: SamplerMetadata) {
        let opts = self.sampler_options();
        SamplerMetadata { name: "top-k", description: None, options: opts.options }
    }

    fn get_option_at(&self, i: usize) -> (r: SamplerOptionValue) {
        if i == 0 {
            SamplerOptionValue::UInt(self.k as u64)
        }
        else if i == 1 {
            SamplerOptionValue::UInt(self.min_keep as u64)
        } else {
            proof {
                assert(false);
            }
            SamplerOptionValue::Bool(false)
        }
    }

    fn set_option_at(&mut self, i: usize, v: SamplerOptionValue) -> (r: Result<
        (),
        ConfigureSamplerError,
    >) {
        if i == 0 {
            match v {
                SamplerOptionValue::UInt(u) => {
                    if u > usize::MAX as u64 {
                        return Err(ConfigureSamplerError::ConversionFailure("value too large".to_string()));
                    }
                    self.k = u as usize;
                    Ok(())
                },
                _ => Err(ConfigureSamplerError::UnknownOrBadType("wrong value kind".to_string())),
            }
        }
        else if i == 1 {
            match v {
                SamplerOptionValue::UInt(u) => {
                    if u > usize::MAX as u64 {
                        return Err(ConfigureSamplerError::ConversionFailure("value too large".to_string()));
                    }
                    self.min_keep = u as usize;
                    Ok(())
                },
                _ => Err(ConfigureSamplerError::UnknownOrBadType("wrong value kind".to_string())),
            }
        } else {
            proof {
                assert(false);
            }
            Err(ConfigureSamplerError::CannotAccessOptionValue("no options".to_string()))
        }
    }
}


impl ConfigurableSampler for SampleTopP {
    open spec fn spec_keys() -> Seq<Seq<char>> {
        seq!["p"@, "min_keep"@]
    }

    open spec fn spec_kinds() -> Seq<SamplerOptionType> {
        seq![SamplerOptionType::Float, SamplerOptionType::UInt]
    }

    open spec fn spec_option_at(&self, i: int) -> SamplerOptionValue {
        if i == 0 {
            SamplerOptionValue::Float(self.p)
        } else
        if i == 1 {
            SamplerOptionValue::UInt(self.min_keep as u64)
        } else {
            SamplerOptionValue::Bool(false)
        }
    }

    open spec fn spec_accepts(i: int, v: SamplerOptionValue) -> bool {
        if i == 0 {
            v is Float
        } else
        if i == 1 {
            v matches SamplerOptionValue::UInt(u) && u <= usize::MAX as u64
        } else {
            false
        }
    }

    open spec fn spec_after_set(pre: Self, i: int, v: SamplerOptionValue) -> Self {
        if i == 0 {
            SampleTopP {
                p: (match v {
                    SamplerOptionValue::Float(x) => x,
                    _ => pre.p,
                }),
                ..pre
            }
        } else
        if i == 1 {
            SampleTopP {
                min_keep: (match v {
                    SamplerOptionValue::UInt(u) => u as usize,
                    _ => pre.min_keep,
                }),
                ..pre
            }
        } else {
            pre
        }
    }

    proof fn accepts_text(i: int, v: SamplerOptionValue) {
    }

    fn sampler_options(&self) -> (r: SamplerOptions) {
        let mut md: Vec<SamplerOptionMetadata> = Vec::new();
        md.push(SamplerOptionMetadata { key: "p", description: None, option_type: SamplerOptionType::Float });
        md.push(SamplerOptionMetadata { key: "min_keep", description: None, option_type: SamplerOptionType::UInt });
        proof {
            assert(md@[0].key@ == Self::spec_keys()[0]);
            assert(md@[1].key@ == Self::spec_keys()[1]);
        }
        SamplerOptions::from_metadata(md)
    }

    fn sampler_metadata(&self) -> (r: SamplerMetadata) {
        let opts = self.sampler_options();
        SamplerMetadata { name: "top-p", description: None, options: opts.options }
    }

    fn get_option_at(&self, i: usize) -> (r: SamplerOptionValue) {
        if i == 0 {
            SamplerOptionValue::Float(self.p)
        }
        else if i == 1 {
            SamplerOptionValue::UInt(self.min_keep as u64)
        } else {
            proof {
                assert(false);
            }
            SamplerOptionValue::Bool(false)
        }
    }

    fn set_option_at(&mut self, i: usize, v: SamplerOptionValue) -> (r: Result<
        (),
        ConfigureSamplerError,
    >) {
        if i == 0 {
            match v {
                SamplerOptionValue::Float(x) => {
                    self.p = x;
                    Ok(())
                },
                _ => Err(ConfigureSamplerError::UnknownOrBadType("wrong value kind".to_string())),
            }
        }
        else if i == 1 {
            match v {
                SamplerOptionValue::UInt(u) => {
                    if u > usize::MAX as u64 {
                        return Err(ConfigureSamplerError::ConversionFailure("value too large".to_string()));
                    }
                    self.min_keep = u as usize;
                    Ok(())
                },
                _ => Err(ConfigureSamplerError::UnknownOrBadType("wrong value kind".to_string())),
            }
        } else {
            proof {
                assert(false);
            }
            Err(ConfigureSamplerError::CannotAccessOptionValue("no options".to_string()))
        }
    }
}


impl ConfigurableSampler for SampleMinP {
    open spec fn spec_keys() -> Seq<Seq<char>> {
        seq!["p"@, "min_keep"@]
    }

    open spec fn spec_kinds() -> Seq<SamplerOptionType> {
        seq![SamplerOptionType::Float, SamplerOptionType::UInt]
    }

    open spec fn spec_option_at(&self, i: int) -> SamplerOptionValue {
        if i == 0 {
            SamplerOptionValue::Float(self.p)
        } else
        if i == 1 {
            SamplerOptionValue::UInt(self.min_keep as u64)
        } else {
            SamplerOptionValue::Bool(false)
        }
    }

    open spec fn spec_accepts(i: int, v: SamplerOptionValue) -> bool {
        if i == 0 {
            v is Float
        } else
        if i == 1 {
            v matches SamplerOptionValue::UInt(u) && u <= usize::MAX as u64
        } else {
            false
        }
    }

    open spec fn spec_after_set(pre: Self, i: int, v: SamplerOptionValue) -> Self {
        if i == 0 {
            SampleMinP {
                p: (match v {
                    SamplerOptionValue::Float(x) => x,
                    _ => pre.p,
                }),
                ..pre
            }
        } else
        if i == 1 {
            SampleMinP {
                min_keep: (match v {
                    SamplerOptionValue::UInt(u) => u as usize,
                    _ => pre.min_keep,
                }),
                ..pre
            }
        } else {
            pre
        }
    }

    proof fn accepts_text(i: int, v: SamplerOptionValue) {
    }

    fn sampler_options(&self) -> (r: SamplerOptions) {
        let mut md: Vec<SamplerOptionMetadata> = Vec::new();
        md.push(SamplerOptionMetadata { key: "p", description: None, option_type: SamplerOptionType::Float });
        md.push(SamplerOptionMetadata { key: "min_keep", description: None, option_type: SamplerOptionType::UInt });
        proof {
            assert(md@[0].key@ == Self::spec_keys()[0]);
            assert(md@[1].key@ == Self::spec_keys()[1]);
        }
        SamplerOptions::from_metadata(md)
    }

    fn sampler_metadata(&self) -> (r: SamplerMetadata) {
        let opts = self.sampler_options();
        SamplerMetadata { name: "min-p", description: None, options: opts.options }
    }

    fn get_option_at(&self, i: usize) -> (r: SamplerOptionValue) {
        if i == 0 {
            SamplerOptionValue::Float(self.p)
        }
        else if i == 1 {
            SamplerOptionValue::UInt(self.min_keep as u64)
        } else {
            proof {
                assert(false);
            }
            SamplerOptionValue::Bool(false)
        }
    }

    fn set_option_at(&mut self, i: usize, v: SamplerOptionValue) -> (r: Result<
        (),
        ConfigureSamplerError,
    >) {
        if i == 0 {
            match v {
                SamplerOptionValue::Float(x) => {
                    self.p = x;
                    Ok(())
                },
                _ => Err(ConfigureSamplerError::UnknownOrBadType("wrong value kind".to_string())),
            }
        }
        else if i == 1 {
            match v {
                SamplerOptionValue::UInt(u) => {
                    if u > usize::MAX as u64 {
                        return Err(ConfigureSamplerError::ConversionFailure("value too large".to_string()));
                    }
                    self.min_keep = u as usize;
                    Ok(())
                },
                _ => Err(ConfigureSamplerError::UnknownOrBadType("wrong value kind".to_string())),
            }
        } else {
            proof {
                assert(false);
            }
            Err(ConfigureSamplerError::CannotAccessOptionValue("no options".to_string()))
        }
    }
}


impl ConfigurableSampler for SampleTopA {
    open spec fn spec_keys() -> Seq<Seq<char>> {
        seq!["a1"@, "a2"@, "min_keep"@]
    }

    open spec fn spec_kinds() -> Seq<SamplerOptionType> {
        seq![SamplerOptionType::Float, SamplerOptionType::Float, SamplerOptionType::UInt]
    }

    open spec fn spec_option_at(&self, i: int) -> SamplerOptionValue {
        if i == 0 {
            SamplerOptionValue::Float(self.a1)
        } else
        if i == 1 {
            SamplerOptionValue::Float(self.a2)
        } else
        if i == 2 {
            SamplerOptionValue::UInt(self.min_keep as u64)
        } else {
            SamplerOptionValue::Bool(false)
        }
    }

    open spec fn spec_accepts(i: int, v: SamplerOptionValue) -> bool {
        if i == 0 {
            v is Float
        } else
        if i == 1 {
            v is Float
        } else
        if i == 2 {
            v matches SamplerOptionValue::UInt(u) && u <= usize::MAX as u64
        } else {
            false
        }
    }

    open spec fn spec_after_set(pre: Self, i: int, v: SamplerOptionValue) -> Self {
        if i == 0 {
            SampleTopA {
                a1: (match v {
                    SamplerOptionValue::Float(x) => x,
                    _ => pre.a1,
                }),
                ..pre
            }
        } else
        if i == 1 {
            SampleTopA {
                a2: (match v {
                    SamplerOptionValue::Float(x) => x,
                    _ => pre.a2,
                }),
                ..pre
            }
        } else
        if i == 2 {
            SampleTopA {
                min_keep: (match v {
                    SamplerOptionValue::UInt(u) => u as usize,
                    _ => pre.min_keep,
                }),
                ..pre
            }
        } else {
            pre
        }
    }

    proof fn accepts_text(i: int, v: SamplerOptionValue) {
    }

    fn sampler_options(&self) -> (r: SamplerOptions) {
        let mut md: Vec<SamplerOptionMetadata> = Vec::new();
        md.push(SamplerOptionMetadata { key: "a1", description: None, option_type: SamplerOptionType::Float });
        md.push(SamplerOptionMetadata { key: "a2", description: None, option_type: SamplerOptionType::Float });
        md.push(SamplerOptionMetadata { key: "min_keep", description: None, option_type: SamplerOptionType::UInt });
        proof {
            assert(md@[0].key@ == Self::spec_keys()[0]);
            assert(md@[1].key@ == Self::spec_keys()[1]);
            assert(md@[2].key@ == Self::spec_keys()[2]);
        }
        SamplerOptions::from_metadata(md)
    }

    fn sampler_metadata(&self) -> (r: SamplerMetadata) {
        let opts = self.sampler_options();
        SamplerMetadata { name: "top-a", description: None, options: opts.options }
    }

    fn get_option_at(&self, i: usize) -> (r: SamplerOptionValue) {
        if i == 0 {
            SamplerOptionValue::Float(self.a1)
        }
        else if i == 1 {
            SamplerOptionValue::Float(self.a2)
        }
        else if i == 2 {
            SamplerOptionValue::UInt(self.min_keep as u64)
        } else {
            proof {
                assert(false);
            }
            SamplerOptionValue::Bool(false)
        }
    }

    fn set_option_at(&mut self, i: usize, v: SamplerOptionValue) -> (r: Result<
        (),
        ConfigureSamplerError,
    >) {
        if i == 0 {
            match v {
                SamplerOptionValue::Float(x) => {
                    self.a1 = x;
                    Ok(())
                },
                _ => Err(ConfigureSamplerError::UnknownOrBadType("wrong value kind".to_string())),
            }
        }
        else if i == 1 {
            match v {
                SamplerOptionValue::Float(x) => {
                    self.a2 = x;
                    Ok(())
                },
                _ => Err(ConfigureSamplerError::UnknownOrBadType("wrong value kind".to_string())),
            }
        }
        else if i == 2 {
            match v {
                SamplerOptionValue::UInt(u) => {
                    if u > usize::MAX as u64 {
                        return Err(ConfigureSamplerError::ConversionFailure("value too large".to_string()));
                    }
                    self.min_keep = u as usize;
                    Ok(())
                },
                _ => Err(ConfigureSamplerError::UnknownOrBadType("wrong value kind".to_string())),
            }
        } else {
            proof {
                assert(false);
            }
            Err(ConfigureSamplerError::CannotAccessOptionValue("no options".to_string()))
        }
    }
}


impl ConfigurableSampler for SampleTailFree {
    open spec fn spec_keys() -> Seq<Seq<char>> {
        seq!["z"@, "min_keep"@]
    }

    open spec fn spec_kinds() -> Seq<SamplerOptionType> {
        seq![SamplerOptionType::Float, SamplerOptionType::UInt]
    }

    open spec fn spec_option_at(&self, i: int) -> SamplerOptionValue {
        if i == 0 {
            SamplerOptionValue::Float(self.z)
        } else
        if i == 1 {
            SamplerOptionValue::UInt(self.min_keep as u64)
        } else {
            SamplerOptionValue::Bool(false)
        }
    }

    open spec fn spec_accepts(i: int, v: SamplerOptionValue) -> bool {
        if i == 0 {
            v is Float
        } else
        if i == 1 {
            v matches SamplerOptionValue::UInt(u) && u <= usize::MAX as u64
        } else {
            false
        }
    }

    open spec fn spec_after_set(pre: Self, i: int, v: SamplerOptionValue) -> Self {
        if i == 0 {
            SampleTailFree {
                z: (match v {
                    SamplerOptionValue::Float(x) => x,
                    _ => pre.z,
                }),
                ..pre
            }
        } else
        if i == 1 {
            SampleTailFree {
                min_keep: (match v {
                    SamplerOptionValue::UInt(u) => u as usize,
                    _ => pre.min_keep,
                }),
                ..pre
            }
        } else {
            pre
        }
    }

    proof fn accepts_text(i: int, v: SamplerOptionValue) {
    }

    fn sampler_options(&self) -> (r: SamplerOptions) {
        let mut md: Vec<SamplerOptionMetadata> = Vec::new();
        md.push(SamplerOptionMetadata { key: "z", description: None, option_type: SamplerOptionType::Float });
        md.push(SamplerOptionMetadata { key: "min_keep", description: None, option_type: SamplerOptionType::UInt });
        proof {
            assert(md@[0].key@ == Self::spec_keys()[0]);
            assert(md@[1].key@ == Self::spec_keys()[1]);
        }
        SamplerOptions::from_metadata(md)
    }

    fn sampler_metadata(&self) -> (r: SamplerMetadata) {
        let opts = self.sampler_options();
        SamplerMetadata { name: "tail-free", description: None, options: opts.options }
    }

    fn get_option_at(&self, i: usize) -> (r: SamplerOptionValue) {
        if i == 0 {
            SamplerOptionValue::Float(self.z)
        }
        else if i == 1 {
            SamplerOptionValue::UInt(self.min_keep as u64)
        } else {
            proof {
                assert(false);
            }
            SamplerOptionValue::Bool(false)
        }
    }

    fn set_option_at(&mut self, i: usize, v: SamplerOptionValue) -> (r: Result<
        (),
        ConfigureSamplerError,
    >) {
        if i == 0 {
            match v {
                SamplerOptionValue::Float(x) => {
                    self.z = x;
                    Ok(())
                },
                _ => Err(ConfigureSamplerError::UnknownOrBadType("wrong value kind".to_string())),
            }
        }
        else if i == 1 {
            match v {
                SamplerOptionValue::UInt(u) => {
                    if u > usize::MAX as u64 {
                        return Err(ConfigureSamplerError::ConversionFailure("value too large".to_string()));
                    }
                    self.min_keep = u as usize;
                    Ok(())
                },
                _ => Err(ConfigureSamplerError::UnknownOrBadType("wrong value kind".to_string())),
            }
        } else {
            proof {
                assert(false);
            }
            Err(ConfigureSamplerError::CannotAccessOptionValue("no options".to_string()))
        }
    }
}


impl ConfigurableSampler for SampleLocallyTypical {
    open spec fn spec_keys() -> Seq<Seq<char>> {
        seq!["p"@, "min_keep"@]
    }

    open spec fn spec_kinds() -> Seq<SamplerOptionType> {
        seq![SamplerOptionType::Float, SamplerOptionType::UInt]
    }

    open spec fn spec_option_at(&self, i: int) -> SamplerOptionValue {
        if i == 0 {
            SamplerOptionValue::Float(self.p)
        } else
        if i == 1 {
            SamplerOptionValue::UInt(self.min_keep as u64)
        } else {
            SamplerOptionValue::Bool(false)
        }
    }

    open spec fn spec_accepts(i: int, v: SamplerOptionValue) -> bool {
        if i == 0 {
            v is Float
        } else
        if i == 1 {
            v matches SamplerOptionValue::UInt(u) && u <= usize::MAX as u64
        } else {
            false
        }
    }

    open spec fn spec_after_set(pre: Self, i: int, v: SamplerOptionValue) -> Self {
        if i == 0 {
            SampleLocallyTypical {
                p: (match v {
                    SamplerOptionValue::Float(x) => x,
                    _ => pre.p,
                }),
                ..pre
            }
        } else
        if i == 1 {
            SampleLocallyTypical {
                min_keep: (match v {
                    SamplerOptionValue::UInt(u) => u as usize,
                    _ => pre.min_keep,
                }),
                ..pre
            }
        } else {
            pre
        }
    }

    proof fn accepts_text(i: int, v: SamplerOptionValue) {
    }

    fn sampler_options(&self) -> (r: SamplerOptions) {
        let mut md: Vec<SamplerOptionMetadata> = Vec::new();
        md.push(SamplerOptionMetadata { key: "p", description: None, option_type: SamplerOptionType::Float });
        md.push(SamplerOptionMetadata { key: "min_keep", description: None, option_type: SamplerOptionType::UInt });
        proof {
            assert(md@[0].key@ == Self::spec_keys()[0]);
            assert(md@[1].key@ == Self::spec_keys()[1]);
        }
        SamplerOptions::from_metadata(md)
    }

    fn sampler_metadata(&self) -> (r: SamplerMetadata) {
        let opts = self.sampler_options();
        SamplerMetadata { name: "locally typical", description: None, options: opts.options }
    }

    fn get_option_at(&self, i: usize) -> (r: SamplerOptionValue) {
        if i == 0 {
            SamplerOptionValue::Float(self.p)
        }
        else if i == 1 {
            SamplerOptionValue::UInt(self.min_keep as u64)
        } else {
            proof {
                assert(false);
            }
            SamplerOptionValue::Bool(false)
        }
    }

    fn set_option_at(&mut self, i: usize, v: SamplerOptionValue) -> (r: Result<
        (),
        ConfigureSamplerError,
    >) {
        if i == 0 {
            match v {
                SamplerOptionValue::Float(x) => {
                    self.p = x;
                    Ok(())
                },
                _ => Err(ConfigureSamplerError::UnknownOrBadType("wrong value kind".to_string())),
            }
        }
        else if i == 1 {
            match v {
                SamplerOptionValue::UInt(u) => {
                    if u > usize::MAX as u64 {
                        return Err(ConfigureSamplerError::ConversionFailure("value too large".to_string()));
                    }
                    self.min_keep = u as usize;
                    Ok(())
                },
                _ => Err(ConfigureSamplerError::UnknownOrBadType("wrong value kind".to_string())),
            }
        } else {
            proof {
                assert(false);
            }
            Err(ConfigureSamplerError::CannotAccessOptionValue("no options".to_string()))
        }
    }
}


impl ConfigurableSampler for SampleTypical {
    open spec fn spec_keys() -> Seq<Seq<char>> {
        seq!["p"@, "min_keep"@]
    }

    open spec fn spec_kinds() -> Seq<SamplerOptionType> {
        seq![SamplerOptionType::Float, SamplerOptionType::UInt]
    }

    open spec fn spec_option_at(&self, i: int) -> SamplerOptionValue {
        if i == 0 {
            SamplerOptionValue::Float(self.p)
        } else
        if i == 1 {
            SamplerOptionValue::UInt(self.min_keep as u64)
        } else {
            SamplerOptionValue::Bool(false)
        }
    }

    open spec fn spec_accepts(i: int, v: SamplerOptionValue) -> bool {
        if i == 0 {
            v is Float
        } else
        if i == 1 {
            v matches SamplerOptionValue::UInt(u) && u <= usize::MAX as u64
        } else {
            false
        }
    }

    open spec fn spec_after_set(pre: Self, i: int, v: SamplerOptionValue) -> Self {
        if i == 0 {
            SampleTypical {
                p: (match v {
                    SamplerOptionValue::Float(x) => x,
                    _ => pre.p,
                }),
                ..pre
            }
        } else
        if i == 1 {
            SampleTypical {
                min_keep: (match v {
                    SamplerOptionValue::UInt(u) => u as usize,
                    _ => pre.min_keep,
                }),
                ..pre
            }
        } else {
            pre
        }
    }

    proof fn accepts_text(i: int, v: SamplerOptionValue) {
    }

    fn sampler_options(&self) -> (r: SamplerOptions) {
        let mut md: Vec<SamplerOptionMetadata> = Vec::new();
        md.push(SamplerOptionMetadata { key: "p", description: None, option_type: SamplerOptionType::Float });
        md.push(SamplerOptionMetadata { key: "min_keep", description: None, option_type: SamplerOptionType::UInt });
        proof {
            assert(md@[0].key@ == Self::spec_keys()[0]);
            assert(md@[1].key@ == Self::spec_keys()[1]);
        }
        SamplerOptions::from_metadata(md)
    }

    fn sampler_metadata(&self) -> (r: SamplerMetadata) {
        let opts = self.sampler_options();
        SamplerMetadata { name: "typical", description: None, options: opts.options }
    }

    fn get_option_at(&self, i: usize) -> (r: SamplerOptionValue) {
        if i == 0 {
            SamplerOptionValue::Float(self.p)
        }
        else if i == 1 {
            SamplerOptionValue::UInt(self.min_keep as u64)
        } else {
            proof {
                assert(false);
            }
            SamplerOptionValue::Bool(false)
        }
    }

    fn set_option_at(&mut self, i: usize, v: SamplerOptionValue) -> (r: Result<
        (),
        ConfigureSamplerError,
    >) {
        if i == 0 {
            match v {
                SamplerOptionValue::Float(x) => {
                    self.p = x;
                    Ok(())
                },
                _ => Err(ConfigureSamplerError::UnknownOrBadType("wrong value kind".to_string())),
            }
        }
        else if i == 1 {
            match v {
                SamplerOptionValue::UInt(u) => {
                    if u > usize::MAX as u64 {
                        return Err(ConfigureSamplerError::ConversionFailure("value too large".to_string()));
                    }
                    self.min_keep = u as usize;
                    Ok(())
                },
                _ => Err(ConfigureSamplerError::UnknownOrBadType("wrong value kind".to_string())),
            }
        } else {
            proof {
                assert(false);
            }
            Err(ConfigureSamplerError::CannotAccessOptionValue("no options".to_string()))
        }
    }
}


impl ConfigurableSampler for SampleTemperature {
    open spec fn spec_keys() -> Seq<Seq<char>> {
        seq!["temperature"@]
    }

    open spec fn spec_kinds() -> Seq<SamplerOptionType> {
        seq![SamplerOptionType::Float]
    }

    open spec fn spec_option_at(&self, i: int) -> SamplerOptionValue {
        if i == 0 {
            SamplerOptionValue::Float(self.temperature)
        } else {
            SamplerOptionValue::Bool(false)
        }
    }

    open spec fn spec_accepts(i: int, v: SamplerOptionValue) -> bool {
        if i == 0 {
            v is Float
        } else {
            false
        }
    }

    open spec fn spec_after_set(pre: Self, i: int, v: SamplerOptionValue) -> Self {
        if i == 0 {
            SampleTemperature {
                temperature: (match v {
                    SamplerOptionValue::Float(x) => x,
                    _ => pre.temperature,
                }),
                ..pre
            }
        } else {
            pre
        }
    }

    proof fn accepts_text(i: int, v: SamplerOptionValue) {
    }

    fn sampler_options(&self) -> (r: SamplerOptions) {
        let mut md: Vec<SamplerOptionMetadata> = Vec::new();
        md.push(SamplerOptionMetadata { key: "temperature", description: None, option_type: SamplerOptionType::Float });
        proof {
            assert(md@[0].key@ == Self::spec_keys()[0]);
        }
        SamplerOptions::from_metadata(md)
    }

    fn sampler_metadata(&self) -> (r: SamplerMetadata) {
        let opts = self.sampler_options();
        SamplerMetadata { name: "temperature", description: None, options: opts.options }
    }

    fn get_option_at(&self, i: usize) -> (r: SamplerOptionValue) {
        if i == 0 {
            SamplerOptionValue::Float(self.temperature)
        } else {
            proof {
                assert(false);
            }
            SamplerOptionValue::Bool(false)
        }
    }

    fn set_option_at(&mut self, i: usize, v: SamplerOptionValue) -> (r: Result<
        (),
        ConfigureSamplerError,
    >) {
        if i == 0 {
            match v {
                SamplerOptionValue::Float(x) => {
                    self.temperature = x;
                    Ok(())
                },
                _ => Err(ConfigureSamplerError::UnknownOrBadType("wrong value kind".to_string())),
            }
        } else {
            proof {
                assert(false);
            }
            Err(ConfigureSamplerError::CannotAccessOptionValue("no options".to_string()))
        }
    }
}


impl ConfigurableSampler for SampleRepetition {
    open spec fn spec_keys() -> Seq<Seq<char>> {
        seq!["penalty"@, "last_n"@]
    }

    open spec fn spec_kinds() -> Seq<SamplerOptionType> {
        seq![SamplerOptionType::Float, SamplerOptionType::UInt]
    }

    open spec fn spec_option_at(&self, i: int) -> SamplerOptionValue {
        if i == 0 {
            SamplerOptionValue::Float(self.penalty)
        } else
        if i == 1 {
            SamplerOptionValue::UInt(self.last_n as u64)
        } else {
            SamplerOptionValue::Bool(false)
        }
    }

    open spec fn spec_accepts(i: int, v: SamplerOptionValue) -> bool {
        if i == 0 {
            v is Float
        } else
        if i == 1 {
            v matches SamplerOptionValue::UInt(u) && u <= usize::MAX as u64
        } else {
            false
        }
    }

    open spec fn spec_after_set(pre: Self, i: int, v: SamplerOptionValue) -> Self {
        if i == 0 {
            SampleRepetition {
                penalty: (match v {
                    SamplerOptionValue::Float(x) => x,
                    _ => pre.penalty,
                }),
                ..pre
            }
        } else
        if i == 1 {
            SampleRepetition {
                last_n: (match v {
                    SamplerOptionValue::UInt(u) => u as usize,
                    _ => pre.last_n,
                }),
                ..pre
            }
        } else {
            pre
        }
    }

    proof fn accepts_text(i: int, v: SamplerOptionValue) {
    }

    fn sampler_options(&self) -> (r: SamplerOptions) {
        let mut md: Vec<SamplerOptionMetadata> = Vec::new();
        md.push(SamplerOptionMetadata { key: "penalty", description: None, option_type: SamplerOptionType::Float });
        md.push(SamplerOptionMetadata { key: "last_n", description: None, option_type: SamplerOptionType::UInt });
        proof {
            assert(md@[0].key@ == Self::spec_keys()[0]);
            assert(md@[1].key@ == Self::spec_keys()[1]);
        }
        SamplerOptions::from_metadata(md)
    }

    fn sampler_metadata(&self) -> (r: SamplerMetadata) {
        let opts = self.sampler_options();
        SamplerMetadata { name: "repetition", description: None, options: opts.options }
    }

    fn get_option_at(&self, i: usize) -> (r: SamplerOptionValue) {
        if i == 0 {
            SamplerOptionValue::Float(self.penalty)
        }
        else if i == 1 {
            SamplerOptionValue::UInt(self.last_n as u64)
        } else {
            proof {
                assert(false);
            }
            SamplerOptionValue::Bool(false)
        }
    }

    fn set_option_at(&mut self, i: usize, v: SamplerOptionValue) -> (r: Result<
        (),
        ConfigureSamplerError,
    >) {
        if i == 0 {
            match v {
                SamplerOptionValue::Float(x) => {
                    self.penalty = x;
                    Ok(())
                },
                _ => Err(ConfigureSamplerError::UnknownOrBadType("wrong value kind".to_string())),
            }
        }
        else if i == 1 {
            match v {
                SamplerOptionValue::UInt(u) => {
                    if u > usize::MAX as u64 {
                        return Err(ConfigureSamplerError::ConversionFailure("value too large".to_string()));
                    }
                    self.last_n = u as usize;
                    Ok(())
                },
                _ => Err(ConfigureSamplerError::UnknownOrBadType("wrong value kind".to_string())),
            }
        } else {
            proof {
                assert(false);
            }
            Err(ConfigureSamplerError::CannotAccessOptionValue("no options".to_string()))
        }
    }
}


impl ConfigurableSampler for SampleFreqPresence {
    open spec fn spec_keys() -> Seq<Seq<char>> {
        seq!["frequency_penalty"@, "presence_penalty"@, "last_n"@]
    }

    open spec fn spec_kinds() -> Seq<SamplerOptionType> {
        seq![SamplerOptionType::Float, SamplerOptionType::Float, SamplerOptionType::UInt]
    }

    open spec fn spec_option_at(&self, i: int) -> SamplerOptionValue {
        if i == 0 {
            SamplerOptionValue::Float(self.frequency_penalty)
        } else
        if i == 1 {
            SamplerOptionValue::Float(self.presence_penalty)
        } else
        if i == 2 {
            SamplerOptionValue::UInt(self.last_n as u64)
        } else {
            SamplerOptionValue::Bool(false)
        }
    }

    open spec fn spec_accepts(i: int, v: SamplerOptionValue) -> bool {
        if i == 0 {
            v is Float
        } else
        if i == 1 {
            v is Float
        } else
        if i == 2 {
            v matches SamplerOptionValue::UInt(u) && u <= usize::MAX as u64
        } else {
            false
        }
    }

    open spec fn spec_after_set(pre: Self, i: int, v: SamplerOptionValue) -> Self {
        if i == 0 {
            SampleFreqPresence {
                frequency_penalty: (match v {
                    SamplerOptionValue::Float(x) => x,
                    _ => pre.frequency_penalty,
                }),
                ..pre
            }
        } else
        if i == 1 {
            SampleFreqPresence {
                presence_penalty: (match v {
                    SamplerOptionValue::Float(x) => x,
                    _ => pre.presence_penalty,
                }),
                ..pre
            }
        } else
        if i == 2 {
            SampleFreqPresence {
                last_n: (match v {
                    SamplerOptionValue::UInt(u) => u as usize,
                    _ => pre.last_n,
                }),
                ..pre
            }
        } else {
            pre
        }
    }

    proof fn accepts_text(i: int, v: SamplerOptionValue) {
    }

    fn sampler_options(&self) -> (r: SamplerOptions) {
        let mut md: Vec<SamplerOptionMetadata> = Vec::new();
        md.push(SamplerOptionMetadata { key: "frequency_penalty", description: None, option_type: SamplerOptionType::Float });
        md.push(SamplerOptionMetadata { key: "presence_penalty", description: None, option_type: SamplerOptionType::Float });
        md.push(SamplerOptionMetadata { key: "last_n", description: None, option_type: SamplerOptionType::UInt });
        proof {
            assert(md@[0].key@ == Self::spec_keys()[0]);
            assert(md@[1].key@ == Self::spec_keys()[1]);
            assert(md@[2].key@ == Self::spec_keys()[2]);
        }
        SamplerOptions::from_metadata(md)
    }

    fn sampler_metadata(&self) -> (r: SamplerMetadata) {
        let opts = self.sampler_options();
        SamplerMetadata { name: "frequency/presence", description: None, options: opts.options }
    }

    fn get_option_at(&self, i: usize) -> (r: SamplerOptionValue) {
        if i == 0 {
            SamplerOptionValue::Float(self.frequency_penalty)
        }
        else if i == 1 {
            SamplerOptionValue::Float(self.presence_penalty)
        }
        else if i == 2 {
            SamplerOptionValue::UInt(self.last_n as u64)
        } else {
            proof {
                assert(false);
            }
            SamplerOptionValue::Bool(false)
        }
    }

    fn set_option_at(&mut self, i: usize, v: SamplerOptionValue) -> (r: Result<
        (),
        ConfigureSamplerError,
    >) {
        if i == 0 {
            match v {
                SamplerOptionValue::Float(x) => {
                    self.frequency_penalty = x;
                    Ok(())
                },
                _ => Err(ConfigureSamplerError::UnknownOrBadType("wrong value kind".to_string())),
            }
        }
        else if i == 1 {
            match v {
                SamplerOptionValue::Float(x) => {
                    self.presence_penalty = x;
                    Ok(())
                },
                _ => Err(ConfigureSamplerError::UnknownOrBadType("wrong value kind".to_string())),
            }
        }
        else if i == 2 {
            match v {
                SamplerOptionValue::UInt(u) => {
                    if u > usize::MAX as u64 {
                        return Err(ConfigureSamplerError::ConversionFailure("value too large".to_string()));
                    }
                    self.last_n = u as usize;
                    Ok(())
                },
                _ => Err(ConfigureSamplerError::UnknownOrBadType("wrong value kind".to_string())),
            }
        } else {
            proof {
                assert(false);
            }
            Err(ConfigureSamplerError::CannotAccessOptionValue("no options".to_string()))
        }
    }
}


impl ConfigurableSampler for SampleSeqRepetition {
    open spec fn spec_keys() -> Seq<Seq<char>> {
        seq!["flat_penalty"@, "stacking_penalty"@, "min_length"@, "tolerance"@, "max_merge"@, "last_n"@]
    }

    open spec fn spec_kinds() -> Seq<SamplerOptionType> {
        seq![SamplerOptionType::Float, SamplerOptionType::Float, SamplerOptionType::UInt, SamplerOptionType::UInt, SamplerOptionType::UInt, SamplerOptionType::UInt]
    }

    open spec fn spec_option_at(&self, i: int) -> SamplerOptionValue {
        if i == 0 {
            SamplerOptionValue::Float(self.flat_penalty)
        } else
        if i == 1 {
            SamplerOptionValue::Float(self.stacking_penalty)
        } else
        if i == 2 {
            SamplerOptionValue::UInt(self.min_length as u64)
        } else
        if i == 3 {
            SamplerOptionValue::UInt(self.tolerance as u64)
        } else
        if i == 4 {
            SamplerOptionValue::UInt(self.max_merge as u64)
        } else
        if i == 5 {
            SamplerOptionValue::UInt(self.last_n as u64)
        } else {
            SamplerOptionValue::Bool(false)
        }
    }

    open spec fn spec_accepts(i: int, v: SamplerOptionValue) -> bool {
        if i == 0 {
            v is Float
        } else
        if i == 1 {
            v is Float
        } else
        if i == 2 {
            v matches SamplerOptionValue::UInt(u) && u <= usize::MAX as u64
        } else
        if i == 3 {
            v matches SamplerOptionValue::UInt(u) && u <= usize::MAX as u64
        } else
        if i == 4 {
            v matches SamplerOptionValue::UInt(u) && u <= usize::MAX as u64
        } else
        if i == 5 {
            v matches SamplerOptionValue::UInt(u) && u <= usize::MAX as u64
        } else {
            false
        }
    }

    open spec fn spec_after_set(pre: Self, i: int, v: SamplerOptionValue) -> Self {
        if i == 0 {
            SampleSeqRepetition {
                flat_penalty: (match v {
                    SamplerOptionValue::Float(x) => x,
                    _ => pre.flat_penalty,
                }),
                ..pre
            }
        } else
        if i == 1 {
            SampleSeqRepetition {
                stacking_penalty: (match v {
                    SamplerOptionValue::Float(x) => x,
                    _ => pre.stacking_penalty,
                }),
                ..pre
            }
        } else
        if i == 2 {
            SampleSeqRepetition {
                min_length: (match v {
                    SamplerOptionValue::UInt(u) => u as usize,
                    _ => pre.min_length,
                }),
                ..pre
            }
        } else
        if i == 3 {
            SampleSeqRepetition {
                tolerance: (match v {
                    SamplerOptionValue::UInt(u) => u as usize,
                    _ => pre.tolerance,
                }),
                ..pre
            }
        } else
        if i == 4 {
            SampleSeqRepetition {
                max_merge: (match v {
                    SamplerOptionValue::UInt(u) => u as usize,
                    _ => pre.max_merge,
                }),
                ..pre
            }
        } else
        if i == 5 {
            SampleSeqRepetition {
                last_n: (match v {
                    SamplerOptionValue::UInt(u) => u as usize,
                    _ => pre.last_n,
                }),
                ..pre
            }
        } else {
            pre
        }
    }

    proof fn accepts_text(i: int, v: SamplerOptionValue) {
    }

    fn sampler_options(&self) -> (r: SamplerOptions) {
        let mut md: Vec<SamplerOptionMetadata> = Vec::new();
        md.push(SamplerOptionMetadata { key: "flat_penalty", description: None, option_type: SamplerOptionType::Float });
        md.push(SamplerOptionMetadata { key: "stacking_penalty", description: None, option_type: SamplerOptionType::Float });
        md.push(SamplerOptionMetadata { key: "min_length", description: None, option_type: SamplerOptionType::UInt });
        md.push(SamplerOptionMetadata { key: "tolerance", description: None, option_type: SamplerOptionType::UInt });
        md.push(SamplerOptionMetadata { key: "max_merge", description: None, option_type: SamplerOptionType::UInt });
        md.push(SamplerOptionMetadata { key: "last_n", description: None, option_type: SamplerOptionType::UInt });
        proof {
            assert(md@[0].key@ == Self::spec_keys()[0]);
            assert(md@[1].key@ == Self::spec_keys()[1]);
            assert(md@[2].key@ == Self::spec_keys()[2]);
            assert(md@[3].key@ == Self::spec_keys()[3]);
            assert(md@[4].key@ == Self::spec_keys()[4]);
            assert(md@[5].key@ == Self::spec_keys()[5]);
        }
        SamplerOptions::from_metadata(md)
    }

    fn sampler_metadata(&self) -> (r: SamplerMetadata) {
        let opts = self.sampler_options();
        SamplerMetadata { name: "sequence repetition", description: None, options: opts.options }
    }

    fn get_option_at(&self, i: usize) -> (r: SamplerOptionValue) {
        if i == 0 {
            SamplerOptionValue::Float(self.flat_penalty)
        }
        else if i == 1 {
            SamplerOptionValue::Float(self.stacking_penalty)
        }
        else if i == 2 {
            SamplerOptionValue::UInt(self.min_length as u64)
        }
        else if i == 3 {
            SamplerOptionValue::UInt(self.tolerance as u64)
        }
        else if i == 4 {
            SamplerOptionValue::UInt(self.max_merge as u64)
        }
        else if i == 5 {
            SamplerOptionValue::UInt(self.last_n as u64)
        } else {
            proof {
                assert(false);
            }
            SamplerOptionValue::Bool(false)
        }
    }

    fn set_option_at(&mut self, i: usize, v: SamplerOptionValue) -> (r: Result<
        (),
        ConfigureSamplerError,
    >) {
        if i == 0 {
            match v {
                SamplerOptionValue::Float(x) => {
                    self.flat_penalty = x;
                    Ok(())
                },
                _ => Err(ConfigureSamplerError::UnknownOrBadType("wrong value kind".to_string())),
            }
        }
        else if i == 1 {
            match v {
                SamplerOptionValue::Float(x) => {
                    self.stacking_penalty = x;
                    Ok(())
                },
                _ => Err(ConfigureSamplerError::UnknownOrBadType("wrong value kind".to_string())),
            }
        }
        else if i == 2 {
            match v {
                SamplerOptionValue::UInt(u) => {
                    if u > usize::MAX as u64 {
                        return Err(ConfigureSamplerError::ConversionFailure("value too large".to_string()));
                    }
                    self.min_length = u as usize;
                    Ok(())
                },
                _ => Err(ConfigureSamplerError::UnknownOrBadType("wrong value kind".to_string())),
            }
        }
        else if i == 3 {
            match v {
                SamplerOptionValue::UInt(u) => {
                    if u > usize::MAX as u64 {
                        return Err(ConfigureSamplerError::ConversionFailure("value too large".to_string()));
                    }
                    self.tolerance = u as usize;
                    Ok(())
                },
                _ => Err(ConfigureSamplerError::UnknownOrBadType("wrong value kind".to_string())),
            }
        }
        else if i == 4 {
            match v {
                SamplerOptionValue::UInt(u) => {
                    if u > usize::MAX as u64 {
                        return Err(ConfigureSamplerError::ConversionFailure("value too large".to_string()));
                    }
                    self.max_merge = u as usize;
                    Ok(())
                },
                _ => Err(ConfigureSamplerError::UnknownOrBadType("wrong value kind".to_string())),
            }
        }
        else if i == 5 {
            match v {
                SamplerOptionValue::UInt(u) => {
                    if u > usize::MAX as u64 {
                        return Err(ConfigureSamplerError::ConversionFailure("value too large".to_string()));
                    }
                    self.last_n = u as usize;
                    Ok(())
                },
                _ => Err(ConfigureSamplerError::UnknownOrBadType("wrong value kind".to_string())),
            }
        } else {
            proof {
                assert(false);
            }
            Err(ConfigureSamplerError::CannotAccessOptionValue("no options".to_string()))
        }
    }
}


impl ConfigurableSampler for SampleGreedy {
    open spec fn spec_keys() -> Seq<Seq<char>> {
        Seq::empty()
    }

    open spec fn spec_kinds() -> Seq<SamplerOptionType> {
        Seq::empty()
    }

    open spec fn spec_option_at(&self, i: int) -> SamplerOptionValue {
        SamplerOptionValue::Bool(false)
    }

    open spec fn spec_accepts(i: int, v: SamplerOptionValue) -> bool {
        false
    }

    open spec fn spec_after_set(pre: Self, i: int, v: SamplerOptionValue) -> Self {
        pre
    }

    proof fn accepts_text(i: int, v: SamplerOptionValue) {
    }

    fn sampler_options(&self) -> (r: SamplerOptions) {
        let mut md: Vec<SamplerOptionMetadata> = Vec::new();
        let _ = &md;
        proof {

        }
        SamplerOptions::from_metadata(md)
    }

    fn sampler_metadata(&self) -> (r: SamplerMetadata) {
        let opts = self.sampler_options();
        SamplerMetadata { name: "greedy", description: None, options: opts.options }
    }

    fn get_option_at(&self, i: usize) -> (r: SamplerOptionValue) {
        proof {
            assert(false);
        }
        SamplerOptionValue::Bool(false)
    }

    fn set_option_at(&mut self, i: usize, v: SamplerOptionValue) -> (r: Result<
        (),
        ConfigureSamplerError,
    >) {
        proof {
            assert(false);
        }
        Err(ConfigureSamplerError::CannotAccessOptionValue("no options".to_string()))
    }
}


impl ConfigurableSampler for SampleRandDistrib {
    open spec fn spec_keys() -> Seq<Seq<char>> {
        Seq::empty()
    }

    open spec fn spec_kinds() -> Seq<SamplerOptionType> {
        Seq::empty()
    }

    open spec fn spec_option_at(&self, i: int) -> SamplerOptionValue {
        SamplerOptionValue::Bool(false)
    }

    open spec fn spec_accepts(i: int, v: SamplerOptionValue) -> bool {
        false
    }

    open spec fn spec_after_set(pre: Self, i: int, v: SamplerOptionValue) -> Self {
        pre
    }

    proof fn accepts_text(i: int, v: SamplerOptionValue) {
    }

    fn sampler_options(&self) -> (r: SamplerOptions) {
        let mut md: Vec<SamplerOptionMetadata> = Vec::new();
        let _ = &md;
        proof {

        }
        SamplerOptions::from_metadata(md)
    }

    fn sampler_metadata(&self) -> (r: SamplerMetadata) {
        let opts = self.sampler_options();
        SamplerMetadata { name: "random distribution", description: None, options: opts.options }
    }

    fn get_option_at(&self, i: usize) -> (r: SamplerOptionValue) {
        proof {
            assert(false);
        }
        SamplerOptionValue::Bool(false)
    }

    fn set_option_at(&mut self, i: usize, v: SamplerOptionValue) -> (r: Result<
        (),
        ConfigureSamplerError,
    >) {
        proof {
            assert(false);
        }
        Err(ConfigureSamplerError::CannotAccessOptionValue("no options".to_string()))
    }
}


impl ConfigurableSampler for SampleFlatBias {
    open spec fn spec_keys() -> Seq<Seq<char>> {
        Seq::empty()
    }

    open spec fn spec_kinds() -> Seq<SamplerOptionType> {
        Seq::empty()
    }

    open spec fn spec_option_at(&self, i: int) -> SamplerOptionValue {
        SamplerOptionValue::Bool(false)
    }

    open spec fn spec_accepts(i: int, v: SamplerOptionValue) -> bool {
        false
    }

    open spec fn spec_after_set(pre: Self, i: int, v: SamplerOptionValue) -> Self {
        pre
    }

    proof fn accepts_text(i: int, v: SamplerOptionValue) {
    }

    fn sampler_options(&self) -> (r: SamplerOptions) {
        let mut md: Vec<SamplerOptionMetadata> = Vec::new();
        let _ = &md;
        proof {

        }
        SamplerOptions::from_metadata(md)
    }

    fn sampler_metadata(&self) -> (r: SamplerMetadata) {
        let opts = self.sampler_options();
        SamplerMetadata { name: "flat bias", description: None, options: opts.options }
    }

    fn get_option_at(&self, i: usize) -> (r: SamplerOptionValue) {
        proof {
            assert(false);
        }
        SamplerOptionValue::Bool(false)
    }

    fn set_option_at(&mut self, i: usize, v: SamplerOptionValue) -> (r: Result<
        (),
        ConfigureSamplerError,
    >) {
        proof {
            assert(false);
        }
        Err(ConfigureSamplerError::CannotAccessOptionValue("no options".to_string()))
    }
}


impl ConfigurableSampler for SampleMirostat1 {
    open spec fn spec_keys() -> Seq<Seq<char>> {
        seq!["tau"@, "eta"@, "mu"@, "m"@, "n_vocab"@]
    }

    open spec fn spec_kinds() -> Seq<SamplerOptionType> {
        seq![SamplerOptionType::Float, SamplerOptionType::Float, SamplerOptionType::Float, SamplerOptionType::UInt, SamplerOptionType::UInt]
    }

    open spec fn spec_option_at(&self, i: int) -> SamplerOptionValue {
        if i == 0 {
            SamplerOptionValue::Float(self.tau)
        } else
        if i == 1 {
            SamplerOptionValue::Float(self.eta)
        } else
        if i == 2 {
            SamplerOptionValue::Float(self.mu)
        } else
        if i == 3 {
            SamplerOptionValue::UInt(self.m as u64)
        } else
        if i == 4 {
            SamplerOptionValue::UInt(self.n_vocab as u64)
        } else {
            SamplerOptionValue::Bool(false)
        }
    }

    open spec fn spec_accepts(i: int, v: SamplerOptionValue) -> bool {
        if i == 0 {
            v is Float
        } else
        if i == 1 {
            v is Float
        } else
        if i == 2 {
            v is Float
        } else
        if i == 3 {
            v matches SamplerOptionValue::UInt(u) && u <= usize::MAX as u64
        } else
        if i == 4 {
            v matches SamplerOptionValue::UInt(u) && u <= usize::MAX as u64
        } else {
            false
        }
    }

    open spec fn spec_after_set(pre: Self, i: int, v: SamplerOptionValue) -> Self {
        if i == 0 {
            SampleMirostat1 {
                tau: (match v {
                    SamplerOptionValue::Float(x) => x,
                    _ => pre.tau,
                }),
                mu: (match v {
                    SamplerOptionValue::Float(x) => Fx {
                        bits: crate::fixed::fx_add(x.bits as int, x.bits as int) as i64,
                    },
                    _ => pre.mu,
                }),
                ..pre
            }
        } else
        if i == 1 {
            SampleMirostat1 {
                eta: (match v {
                    SamplerOptionValue::Float(x) => x,
                    _ => pre.eta,
                }),
                ..pre
            }
        } else
        if i == 2 {
            SampleMirostat1 {
                mu: (match v {
                    SamplerOptionValue::Float(x) => x,
                    _ => pre.mu,
                }),
                ..pre
            }
        } else
        if i == 3 {
            SampleMirostat1 {
                m: (match v {
                    SamplerOptionValue::UInt(u) => u as usize,
                    _ => pre.m,
                }),
                ..pre
            }
        } else
        if i == 4 {
            SampleMirostat1 {
                n_vocab: (match v {
                    SamplerOptionValue::UInt(u) => u as usize,
                    _ => pre.n_vocab,
                }),
                ..pre
            }
        } else {
            pre
        }
    }

    proof fn accepts_text(i: int, v: SamplerOptionValue) {
    }

    fn sampler_options(&self) -> (r: SamplerOptions) {
        let mut md: Vec<SamplerOptionMetadata> = Vec::new();
        md.push(SamplerOptionMetadata { key: "tau", description: None, option_type: SamplerOptionType::Float });
        md.push(SamplerOptionMetadata { key: "eta", description: None, option_type: SamplerOptionType::Float });
        md.push(SamplerOptionMetadata { key: "mu", description: None, option_type: SamplerOptionType::Float });
        md.push(SamplerOptionMetadata { key: "m", description: None, option_type: SamplerOptionType::UInt });
        md.push(SamplerOptionMetadata { key: "n_vocab", description: None, option_type: SamplerOptionType::UInt });
        proof {
            assert(md@[0].key@ == Self::spec_keys()[0]);
            assert(md@[1].key@ == Self::spec_keys()[1]);
            assert(md@[2].key@ == Self::spec_keys()[2]);
            assert(md@[3].key@ == Self::spec_keys()[3]);
            assert(md@[4].key@ == Self::spec_keys()[4]);
        }
        SamplerOptions::from_metadata(md)
    }

    fn sampler_metadata(&self) -> (r: SamplerMetadata) {
        let opts = self.sampler_options();
        SamplerMetadata { name: "mirostat (v1)", description: None, options: opts.options }
    }

    fn get_option_at(&self, i: usize) -> (r: SamplerOptionValue) {
        if i == 0 {
            SamplerOptionValue::Float(self.tau)
        }
        else if i == 1 {
            SamplerOptionValue::Float(self.eta)
        }
        else if i == 2 {
            SamplerOptionValue::Float(self.mu)
        }
        else if i == 3 {
            SamplerOptionValue::UInt(self.m as u64)
        }
        else if i == 4 {
            SamplerOptionValue::UInt(self.n_vocab as u64)
        } else {
            proof {
                assert(false);
            }
            SamplerOptionValue::Bool(false)
        }
    }

    fn set_option_at(&mut self, i: usize, v: SamplerOptionValue) -> (r: Result<
        (),
        ConfigureSamplerError,
    >) {
        if i == 0 {
            match v {
                SamplerOptionValue::Float(x) => {
                    self.tau = x;
                    self.mu = x.add(x);
                    Ok(())
                },
                _ => Err(ConfigureSamplerError::UnknownOrBadType("wrong value kind".to_string())),
            }
        }
        else if i == 1 {
            match v {
                SamplerOptionValue::Float(x) => {
                    self.eta = x;
                    Ok(())
                },
                _ => Err(ConfigureSamplerError::UnknownOrBadType("wrong value kind".to_string())),
            }
        }
        else if i == 2 {
            match v {
                SamplerOptionValue::Float(x) => {
                    self.mu = x;
                    Ok(())
                },
                _ => Err(ConfigureSamplerError::UnknownOrBadType("wrong value kind".to_string())),
            }
        }
        else if i == 3 {
            match v {
                SamplerOptionValue::UInt(u) => {
                    if u > usize::MAX as u64 {
                        return Err(ConfigureSamplerError::ConversionFailure("value too large".to_string()));
                    }
                    self.m = u as usize;
                    Ok(())
                },
                _ => Err(ConfigureSamplerError::UnknownOrBadType("wrong value kind".to_string())),
            }
        }
        else if i == 4 {
            match v {
                SamplerOptionValue::UInt(u) => {
                    if u > usize::MAX as u64 {
                        return Err(ConfigureSamplerError::ConversionFailure("value too large".to_string()));
                    }
                    self.n_vocab = u as usize;
                    Ok(())
                },
                _ => Err(ConfigureSamplerError::UnknownOrBadType("wrong value kind".to_string())),
            }
        } else {
            proof {
                assert(false);
            }
            Err(ConfigureSamplerError::CannotAccessOptionValue("no options".to_string()))
        }
    }
}


impl ConfigurableSampler for SampleMirostat2 {
    open spec fn spec_keys() -> Seq<Seq<char>> {
        seq!["tau"@, "eta"@, "mu"@]
    }

    open spec fn spec_kinds() -> Seq<SamplerOptionType> {
        seq![SamplerOptionType::Float, SamplerOptionType::Float, SamplerOptionType::Float]
    }

    open spec fn spec_option_at(&self, i: int) -> SamplerOptionValue {
        if i == 0 {
            SamplerOptionValue::Float(self.tau)
        } else
        if i == 1 {
            SamplerOptionValue::Float(self.eta)
        } else
        if i == 2 {
            SamplerOptionValue::Float(self.mu)
        } else {
            SamplerOptionValue::Bool(false)
        }
    }

    open spec fn spec_accepts(i: int, v: SamplerOptionValue) -> bool {
        if i == 0 {
            v is Float
        } else
        if i == 1 {
            v is Float
        } else
        if i == 2 {
            v is Float
        } else {
            false
        }
    }

    open spec fn spec_after_set(pre: Self, i: int, v: SamplerOptionValue) -> Self {
        if i == 0 {
            SampleMirostat2 {
                tau: (match v {
                    SamplerOptionValue::Float(x) => x,
                    _ => pre.tau,
                }),
                mu: (match v {
                    SamplerOptionValue::Float(x) => Fx {
                        bits: crate::fixed::fx_add(x.bits as int, x.bits as int) as i64,
                    },
                    _ => pre.mu,
                }),
                ..pre
            }
        } else
        if i == 1 {
            SampleMirostat2 {
                eta: (match v {
                    SamplerOptionValue::Float(x) => x,
                    _ => pre.eta,
                }),
                ..pre
            }
        } else
        if i == 2 {
            SampleMirostat2 {
                mu: (match v {
                    SamplerOptionValue::Float(x) => x,
                    _ => pre.mu,
                }),
                ..pre
            }
        } else {
            pre
        }
    }

    proof fn accepts_text(i: int, v: SamplerOptionValue) {
    }

    fn sampler_options(&self) -> (r: SamplerOptions) {
        let mut md: Vec<SamplerOptionMetadata> = Vec::new();
        md.push(SamplerOptionMetadata { key: "tau", description: None, option_type: SamplerOptionType::Float });
        md.push(SamplerOptionMetadata { key: "eta", description: None, option_type: SamplerOptionType::Float });
        md.push(SamplerOptionMetadata { key: "mu", description: None, option_type: SamplerOptionType::Float });
        proof {
            assert(md@[0].key@ == Self::spec_keys()[0]);
            assert(md@[1].key@ == Self::spec_keys()[1]);
            assert(md@[2].key@ == Self::spec_keys()[2]);
        }
        SamplerOptions::from_metadata(md)
    }

    fn sampler_metadata(&self) -> (r: SamplerMetadata) {
        let opts = self.sampler_options();
        SamplerMetadata { name: "mirostat (v2)", description: None, options: opts.options }
    }

    fn get_option_at(&self, i: usize) -> (r: SamplerOptionValue) {
        if i == 0 {
            SamplerOptionValue::Float(self.tau)
        }
        else if i == 1 {
            SamplerOptionValue::Float(self.eta)
        }
        else if i == 2 {
            SamplerOptionValue::Float(self.mu)
        } else {
            proof {
                assert(false);
            }
            SamplerOptionValue::Bool(false)
        }
    }

    fn set_option_at(&mut self, i: usize, v: SamplerOptionValue) -> (r: Result<
        (),
        ConfigureSamplerError,
    >) {
        if i == 0 {
            match v {
                SamplerOptionValue::Float(x) => {
                    self.tau = x;
                    self.mu = x.add(x);
                    Ok(())
                },
                _ => Err(ConfigureSamplerError::UnknownOrBadType("wrong value kind".to_string())),
            }
        }
        else if i == 1 {
            match v {
                SamplerOptionValue::Float(x) => {
                    self.eta = x;
                    Ok(())
                },
                _ => Err(ConfigureSamplerError::UnknownOrBadType("wrong value kind".to_string())),
            }
        }
        else if i == 2 {
            match v {
                SamplerOptionValue::Float(x) => {
                    self.mu = x;
                    Ok(())
                },
                _ => Err(ConfigureSamplerError::UnknownOrBadType("wrong value kind".to_string())),
            }
        } else {
            proof {
                assert(false);
            }
            Err(ConfigureSamplerError::CannotAccessOptionValue("no options".to_string()))
        }
    }
}

} // verus!
