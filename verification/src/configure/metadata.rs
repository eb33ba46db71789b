use vstd::prelude::*;

use crate::configure::value::{str_chars, trim_chars, trimmed, ConfigureSamplerError};

verus! {

/// Describes one sampler option.
#[derive(Debug, Clone, Copy, PartialEq, Eq)]
pub struct SamplerOptionMetadata {
    /// Option name.
    pub key: &'static str,
    /// Optional description.
    pub description: Option<&'static str>,
    /// The option's value kind.
    pub option_type: crate::configure::value::SamplerOptionType,
}

/// Describes a sampler: its name, an optional description, and its options.
#[derive(Debug, Clone, PartialEq, Eq)]
pub struct SamplerMetadata {
    pub name: &'static str,
    pub description: Option<&'static str>,
    pub options: Vec<SamplerOptionMetadata>,
}

/// A key matches an option name when it is a prefix of it.
pub open spec fn key_matches(key: Seq<char>, okey: Seq<char>) -> bool {
    key.len() <= okey.len() && key == okey.subrange(0, key.len() as int)
}

/// How many of the first `n` options the key matches.
pub open spec fn match_count(opts: Seq<SamplerOptionMetadata>, key: Seq<char>, n: int) -> int
    decreases n,
{
    if n <= 0 {
        0
    } else {
        match_count(opts, key, n - 1) + if key_matches(key, opts[n - 1].key@) {
            1int
        } else {
            0int
        }
    }
}

proof fn lemma_match_count_nonneg(opts: Seq<SamplerOptionMetadata>, key: Seq<char>, n: int)
    ensures
        match_count(opts, key, n) >= 0,
    decreases n,
{
    if n > 0 {
        lemma_match_count_nonneg(opts, key, n - 1);
    }
}

/// The match count is never negative.
pub proof fn lemma_match_count_nonneg_pub(opts: Seq<SamplerOptionMetadata>, key: Seq<char>, n: int)
    ensures
        match_count(opts, key, n) >= 0,
{
    lemma_match_count_nonneg(opts, key, n);
}

/// A zero match count means no option matches.
pub proof fn lemma_match_count_zero(opts: Seq<SamplerOptionMetadata>, key: Seq<char>, n: int)
    requires
        match_count(opts, key, n) == 0,
    ensures
        forall|j: int| 0 <= j < n ==> !key_matches(key, (#[trigger] opts[j]).key@),
    decreases n,
{
    if n > 0 {
        lemma_match_count_nonneg(opts, key, n - 1);
        lemma_match_count_zero(opts, key, n - 1);
    }
}

/// A match count of two or more yields two distinct matching options.
pub proof fn lemma_match_count_two(opts: Seq<SamplerOptionMetadata>, key: Seq<char>, n: int)
    requires
        match_count(opts, key, n) >= 2,
    ensures
        exists|a: int, b: int|
            0 <= a < b < n && key_matches(key, (#[trigger] opts[a]).key@) && key_matches(
                key,
                (#[trigger] opts[b]).key@,
            ),
    decreases n,
{
    if n > 0 {
        if key_matches(key, opts[n - 1].key@) {
            if match_count(opts, key, n - 1) >= 2 {
                lemma_match_count_two(opts, key, n - 1);
            } else if match_count(opts, key, n - 1) >= 1 {
                lemma_match_count_one_exists(opts, key, n - 1);
                let a = choose|a: int| 0 <= a < n - 1 && key_matches(key, (#[trigger] opts[a]).key@);
                assert(0 <= a < n - 1 && key_matches(key, opts[a].key@) && key_matches(
                    key,
                    opts[n - 1].key@,
                ));
            } else {
                lemma_match_count_nonneg(opts, key, n - 1);
            }
        } else {
            lemma_match_count_two(opts, key, n - 1);
        }
    }
}

/// A positive match count yields a matching option.
proof fn lemma_match_count_one_exists(opts: Seq<SamplerOptionMetadata>, key: Seq<char>, n: int)
    requires
        match_count(opts, key, n) >= 1,
    ensures
        exists|a: int| 0 <= a < n && key_matches(key, (#[trigger] opts[a]).key@),
    decreases n,
{
    if n > 0 {
        if key_matches(key, opts[n - 1].key@) {
        } else {
            lemma_match_count_one_exists(opts, key, n - 1);
        }
    }
}

/// An ordered list of declared options, resolved against by name.
#[derive(Debug, Clone, PartialEq, Eq)]
pub struct SamplerOptions {
    pub options: Vec<SamplerOptionMetadata>,
}

fn is_prefix_of(key: &Vec<char>, okey: &str) -> (r: bool)
    ensures
        r == key_matches(key@, okey@),
{
    let oc = str_chars(okey);
    let kn = key.len();
    if kn > oc.len() {
        return false;
    }
    let mut i: usize = 0;
    while i < kn
        invariant
            0 <= i <= kn <= oc@.len(),
            kn == key@.len(),
            oc@ == okey@,
            forall|j: int| 0 <= j < i ==> (#[trigger] key@[j]) == okey@[j],
        decreases kn - i,
    {
        if key[i] != oc[i] {
            proof {
                assert(key@[i as int] != okey@.subrange(0, kn as int)[i as int]);
            }
            return false;
        }
        i = i + 1;
    }
    proof {
        assert(key@ =~= okey@.subrange(0, kn as int));
    }
    true
}

impl SamplerOptions {
    /// Build from a metadata list.
    pub fn from_metadata(options: Vec<SamplerOptionMetadata>) -> (r: SamplerOptions)
        ensures
            r.options@ == options@,
    {
        SamplerOptions { options }
    }

    /// Resolve a (trimmed) key against the declared options: exactly one
    /// prefix match yields its position; none is an unknown key, and two
    /// or more are ambiguous. An empty key matches every option, so it
    /// resolves exactly when a single option is declared.
    pub fn find_option_definition(&self, key: &str) -> (r: Result<usize, ConfigureSamplerError>)
        ensures
            ({
                let k = trimmed(key@);
                let total = match_count(self.options@, k, self.options@.len() as int);
                &&& (r.is_ok() <==> total == 1)
                &&& (r matches Err(e) ==> ((e matches ConfigureSamplerError::UnknownOrBadType(_))
                    <==> total == 0))
                &&& (r matches Err(e) ==> ((e matches ConfigureSamplerError::AmbiguousKey(_))
                    <==> total >= 2))
                &&& (r matches Err(ConfigureSamplerError::UnknownOrBadType(p)) ==> p@ == (if k.len()
                    == 0 {
                    "<unspecified>"@
                } else {
                    k
                }))
                &&& (r matches Err(ConfigureSamplerError::AmbiguousKey(p)) ==> p@ == (if k.len()
                    == 0 {
                    "<unspecified>"@
                } else {
                    k
                }))
                &&& (r matches Ok(i) ==> i < self.options@.len() && key_matches(
                    k,
                    self.options@[i as int].key@,
                ) && forall|j: int|
                    0 <= j < self.options@.len() && j != i ==> !key_matches(
                        k,
                        (#[trigger] self.options@[j]).key@,
                    ))
            }),
    {
        let chars = str_chars(key);
        let k = trim_chars(&chars);
        let n = self.options.len();
        let mut cnt: usize = 0;
        let mut first: usize = 0;
        let mut i: usize = 0;
        while i < n
            invariant
                0 <= i <= n,
                n == self.options@.len(),
                k@ == trimmed(key@),
                cnt as int == match_count(self.options@, k@, i as int),
                cnt <= i,
                cnt > 0 ==> first < i && key_matches(k@, self.options@[first as int].key@),
                cnt == 1 ==> forall|j: int|
                    0 <= j < i && j != first ==> !key_matches(
                        k@,
                        (#[trigger] self.options@[j]).key@,
                    ),
                cnt == 0 ==> forall|j: int|
                    0 <= j < i ==> !key_matches(k@, (#[trigger] self.options@[j]).key@),
            decreases n - i,
        {
            let m = is_prefix_of(&k, self.options[i].key);
            if m {
                if cnt == 0 {
                    first = i;
                }
                cnt = cnt + 1;
            }
            i = i + 1;
        }
        if cnt == 0 {
            Err(ConfigureSamplerError::UnknownOrBadType(chars_key_text(&k)))
        } else if cnt > 1 {
            Err(ConfigureSamplerError::AmbiguousKey(chars_key_text(&k)))
        } else {
            Ok(first)
        }
    }
}

/// The key's text for an error message, or a placeholder when empty.
fn chars_key_text(k: &Vec<char>) -> (r: String)
    ensures
        r@ == (if k@.len() == 0 {
            "<unspecified>"@
        } else {
            k@
        }),
{
    if k.len() == 0 {
        "<unspecified>".to_string()
    } else {
        crate::configure::value::chars_to_string(k)
    }
}

} // verus!
