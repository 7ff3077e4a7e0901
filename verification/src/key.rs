//! The key composer: a canonical textual transcript of every input to the
//! cache key — version tag, compiler library digests, normalized argument
//! pairs, source and extern digests, and the `CARGO_`-prefixed environment
//! — digested into the key.  Every token is length-prefixed, so distinct
//! input lists give distinct transcripts, and the three argument families
//! the build tool emits in nondeterministic order are sorted first.

use vstd::prelude::*;

verus! {

use vstd::seq_lib::lemma_sorted_unique;
use vstd::string::StrSliceExecFns;
use vstd::string::StringExecFns;
use crate::strkit::{dec_of, dec_str, str_eq, str_starts_with};
use crate::order::{clone_pair, env_leq, env_view, env_views, pair_leq, pair_view, pair_views,
    sort_env, sort_pairs, views, lemma_pair_le_total_ordering, lemma_env_le_total_ordering};
use crate::digest::{sha1_hex_of, transcript_digest};

/// The version tag of the key derivation.  Any change to the transcript's
/// layout or contents must change it, so that old and new keys never
/// collide.
pub open spec fn version_tag() -> Seq<char> {
    "3"@
}

/// A token, length-prefixed in decimal, so that adjacent tokens cannot be
/// confused whatever characters they hold.
pub open spec fn lp(t: Seq<char>) -> Seq<char> {
    dec_of(t.len() as nat) + seq![':'] + t
}

/// The concatenation of a list of length-prefixed tokens.
pub open spec fn chain(ss: Seq<Seq<char>>) -> Seq<char>
    decreases ss.len(),
{
    if ss.len() == 0 {
        Seq::empty()
    } else {
        lp(ss[0]) + chain(ss.drop_first())
    }
}

/// A counted section of the transcript: how many tokens, then the tokens.
pub open spec fn section(ss: Seq<Seq<char>>) -> Seq<char> {
    dec_of(ss.len() as nat) + seq![';'] + chain(ss)
}

/// The flag families the build tool emits in nondeterministic order.
pub open spec fn is_sortable(p: (Seq<char>, Option<Seq<char>>)) -> bool {
    p.0 == "--extern"@ || p.0 == "-L"@ || p.0 == "--cfg"@
}

/// `is_sortable` as a predicate value.
pub open spec fn sortable_pred() -> spec_fn((Seq<char>, Option<Seq<char>>)) -> bool {
    |p: (Seq<char>, Option<Seq<char>>)| is_sortable(p)
}

/// The complement of `sortable_pred`.
pub open spec fn unsortable_pred() -> spec_fn((Seq<char>, Option<Seq<char>>)) -> bool {
    |p: (Seq<char>, Option<Seq<char>>)| !is_sortable(p)
}

/// The canonical order of the argument pairs: everything else in
/// occurrence order, then the sortable families sorted.
pub open spec fn canonical_pairs(ps: Seq<(Seq<char>, Option<Seq<char>>)>) -> Seq<
    (Seq<char>, Option<Seq<char>>),
> {
    ps.filter(unsortable_pred()) + ps.filter(sortable_pred()).sort_by(pair_leq())
}

/// One argument pair in the transcript: the flag, then `-` for no value or
/// `=` and the value.
pub open spec fn pair_chunk(p: (Seq<char>, Option<Seq<char>>)) -> Seq<char> {
    lp(p.0) + match p.1 {
        None => seq!['-'],
        Some(v) => seq!['='] + lp(v),
    }
}

/// The concatenation of the argument pair chunks.
pub open spec fn pair_chain(ps: Seq<(Seq<char>, Option<Seq<char>>)>) -> Seq<char>
    decreases ps.len(),
{
    if ps.len() == 0 {
        Seq::empty()
    } else {
        pair_chunk(ps[0]) + pair_chain(ps.drop_first())
    }
}

/// The argument section of the transcript, in canonical order.
pub open spec fn args_blob(ps: Seq<(Seq<char>, Option<Seq<char>>)>) -> Seq<char> {
    let c = canonical_pairs(ps);
    dec_of(c.len() as nat) + seq![';'] + pair_chain(c)
}

/// Whether an environment variable's name selects it for the key.
pub open spec fn is_cargo_name(n: Seq<char>) -> bool {
    "CARGO_"@.is_prefix_of(n)
}

/// `is_cargo_name` on pairs, as a predicate value.
pub open spec fn cargo_pred() -> spec_fn((Seq<char>, Seq<char>)) -> bool {
    |p: (Seq<char>, Seq<char>)| is_cargo_name(p.0)
}

/// The environment pairs the key depends on: the `CARGO_`-prefixed ones,
/// sorted by name and value.
pub open spec fn cargo_env(env: Seq<(Seq<char>, Seq<char>)>) -> Seq<(Seq<char>, Seq<char>)> {
    env.filter(cargo_pred()).sort_by(env_leq())
}

/// One environment pair in the transcript.
pub open spec fn env_chunk(p: (Seq<char>, Seq<char>)) -> Seq<char> {
    lp(p.0) + seq!['='] + lp(p.1)
}

/// The concatenation of the environment chunks.
pub open spec fn env_chain(ps: Seq<(Seq<char>, Seq<char>)>) -> Seq<char>
    decreases ps.len(),
{
    if ps.len() == 0 {
        Seq::empty()
    } else {
        env_chunk(ps[0]) + env_chain(ps.drop_first())
    }
}

/// The environment section of the transcript.
pub open spec fn env_blob(env: Seq<(Seq<char>, Seq<char>)>) -> Seq<char> {
    let c = cargo_env(env);
    dec_of(c.len() as nat) + seq![';'] + env_chain(c)
}

/// The whole transcript, in the fixed order of the key derivation:
/// version tag, compiler shared-library digests, canonical arguments,
/// source digests, extern digests, selected environment.
pub open spec fn key_transcript(
    shlibs: Seq<Seq<char>>,
    pairs: Seq<(Seq<char>, Option<Seq<char>>)>,
    sources: Seq<Seq<char>>,
    externs: Seq<Seq<char>>,
    env: Seq<(Seq<char>, Seq<char>)>,
) -> Seq<char> {
    version_tag() + section(shlibs) + args_blob(pairs) + section(sources) + section(externs)
        + env_blob(env)
}

/// The cache key: the digest of the transcript's UTF-8 bytes.
pub open spec fn cache_key(
    shlibs: Seq<Seq<char>>,
    pairs: Seq<(Seq<char>, Option<Seq<char>>)>,
    sources: Seq<Seq<char>>,
    externs: Seq<Seq<char>>,
    env: Seq<(Seq<char>, Seq<char>)>,
) -> Seq<char> {
    sha1_hex_of(vstd::utf8::encode_utf8(key_transcript(shlibs, pairs, sources, externs, env)))
}

fn push_lp(out: &mut String, t: &str)
    ensures
        final(out)@ == old(out)@ + lp(t@),
{
    let n: u64 = t.unicode_len() as u64;
    let d = dec_str(n);
    out.append(d.as_str());
    out.append(":");
    out.append(t);
    proof {
        reveal_strlit(":");
        assert(out@ =~= old(out)@ + lp(t@));
    }
}

fn build_section(ss: &Vec<String>) -> (r: String)
    ensures
        r@ == section(views(ss@)),
{
    let ghost sv = views(ss@);
    let mut out = dec_str(ss.len() as u64);
    out.append(";");
    proof {
        reveal_strlit(";");
        assert(sv.skip(0) =~~= sv);
        assert(out@ =~= dec_of(sv.len() as nat) + seq![';']);
    }
    let mut k: usize = 0;
    while k < ss.len()
        invariant
            k <= ss@.len(),
            sv == views(ss@),
            out@ + chain(sv.skip(k as int)) =~= section(sv),
        decreases ss@.len() - k,
    {
        let ghost rem = sv.skip(k as int);
        proof {
            assert(rem[0] == sv[k as int]);
            assert(rem.drop_first() =~~= sv.skip(k as int + 1));
        }
        push_lp(&mut out, ss[k].as_str());
        k = k + 1;
    }
    proof {
        assert(sv.skip(k as int) =~~= Seq::<Seq<char>>::empty());
        assert(out@ =~= section(sv));
    }
    out
}

fn is_sortable_exec(p: &(String, Option<String>)) -> (r: bool)
    ensures
        r == is_sortable(pair_view(*p)),
{
    str_eq(p.0.as_str(), "--extern") || str_eq(p.0.as_str(), "-L") || str_eq(p.0.as_str(), "--cfg")
}

/// Reorders the pairs into their canonical form: the sortable families
/// sorted and moved to the end, everything else kept in occurrence order.
pub fn canonicalize(pairs: &Vec<(String, Option<String>)>) -> (r: Vec<(String, Option<String>)>)
    ensures
        pair_views(r@) == canonical_pairs(pair_views(pairs@)),
{
    let ghost pvs = pair_views(pairs@);
    let mut rest: Vec<(String, Option<String>)> = Vec::new();
    let mut sortable: Vec<(String, Option<String>)> = Vec::new();
    let mut i: usize = 0;
    proof {
        assert(pvs.take(0) =~~= Seq::<(Seq<char>, Option<Seq<char>>)>::empty());
        assert(pair_views(rest@) =~~= pvs.take(0).filter(unsortable_pred()));
        assert(pair_views(sortable@) =~~= pvs.take(0).filter(sortable_pred()));
    }
    while i < pairs.len()
        invariant
            i <= pairs@.len(),
            pvs == pair_views(pairs@),
            pair_views(rest@) == pvs.take(i as int).filter(unsortable_pred()),
            pair_views(sortable@) == pvs.take(i as int).filter(sortable_pred()),
        decreases pairs@.len() - i,
    {
        let p = clone_pair(&pairs[i]);
        proof {
            assert(pair_view(p) == pvs[i as int]);
            assert(pvs.take(i as int + 1) =~~= pvs.take(i as int).push(pvs[i as int]));
            pvs.take(i as int).lemma_filter_push(pvs[i as int], sortable_pred());
            pvs.take(i as int).lemma_filter_push(pvs[i as int], unsortable_pred());
        }
        if is_sortable_exec(&p) {
            proof {
                assert(pair_views(sortable@.push(p)) =~~= pair_views(sortable@).push(pair_view(p)));
            }
            sortable.push(p);
        } else {
            proof {
                assert(pair_views(rest@.push(p)) =~~= pair_views(rest@).push(pair_view(p)));
            }
            rest.push(p);
        }
        i = i + 1;
    }
    proof {
        assert(pvs.take(i as int) =~~= pvs);
    }
    let mut sorted = sort_pairs(&sortable);
    let mut out = rest;
    let ghost rest_v = pair_views(out@);
    let ghost sorted_v = pair_views(sorted@);
    out.append(&mut sorted);
    proof {
        assert(pair_views(out@) =~~= rest_v + sorted_v);
    }
    out
}

fn build_args_blob(pairs: &Vec<(String, Option<String>)>) -> (r: String)
    ensures
        r@ == args_blob(pair_views(pairs@)),
{
    let canon = canonicalize(pairs);
    let ghost cv = pair_views(canon@);
    let mut out = dec_str(canon.len() as u64);
    out.append(";");
    proof {
        reveal_strlit(";");
        assert(cv.skip(0) =~~= cv);
        assert(out@ =~= dec_of(cv.len() as nat) + seq![';']);
    }
    let mut k: usize = 0;
    while k < canon.len()
        invariant
            k <= canon@.len(),
            cv == pair_views(canon@),
            cv == canonical_pairs(pair_views(pairs@)),
            out@ + pair_chain(cv.skip(k as int)) =~= args_blob(pair_views(pairs@)),
        decreases canon@.len() - k,
    {
        let ghost rem = cv.skip(k as int);
        proof {
            assert(rem[0] == cv[k as int]);
            assert(rem.drop_first() =~~= cv.skip(k as int + 1));
        }
        let p = &canon[k];
        push_lp(&mut out, p.0.as_str());
        match &p.1 {
            None => {
                out.append("-");
                proof {
                    reveal_strlit("-");
                    assert(out@ + pair_chain(cv.skip(k as int + 1)) =~= args_blob(
                        pair_views(pairs@),
                    ));
                }
            },
            Some(v) => {
                out.append("=");
                push_lp(&mut out, v.as_str());
                proof {
                    reveal_strlit("=");
                    assert(out@ + pair_chain(cv.skip(k as int + 1)) =~= args_blob(
                        pair_views(pairs@),
                    ));
                }
            },
        }
        k = k + 1;
    }
    proof {
        assert(cv.skip(k as int) =~~= Seq::<(Seq<char>, Option<Seq<char>>)>::empty());
        assert(out@ =~= args_blob(pair_views(pairs@)));
    }
    out
}

fn build_env_blob(env: &Vec<(String, String)>) -> (r: String)
    ensures
        r@ == env_blob(env_views(env@)),
{
    let ghost ev = env_views(env@);
    let mut kept: Vec<(String, String)> = Vec::new();
    let mut i: usize = 0;
    proof {
        assert(ev.take(0) =~~= Seq::<(Seq<char>, Seq<char>)>::empty());
        assert(env_views(kept@) =~~= ev.take(0).filter(cargo_pred()));
    }
    while i < env.len()
        invariant
            i <= env@.len(),
            ev == env_views(env@),
            env_views(kept@) == ev.take(i as int).filter(cargo_pred()),
        decreases env@.len() - i,
    {
        let name = env[i].0.clone();
        let value = env[i].1.clone();
        proof {
            assert(env_view((name, value)) == ev[i as int]);
            assert(ev.take(i as int + 1) =~~= ev.take(i as int).push(ev[i as int]));
            ev.take(i as int).lemma_filter_push(ev[i as int], cargo_pred());
        }
        if str_starts_with(name.as_str(), "CARGO_") {
            proof {
                assert(env_views(kept@.push((name, value))) =~~= env_views(kept@).push(
                    env_view((name, value)),
                ));
            }
            kept.push((name, value));
        }
        i = i + 1;
    }
    proof {
        assert(ev.take(i as int) =~~= ev);
    }
    let sorted = sort_env(&kept);
    let ghost cv = env_views(sorted@);
    proof {
        assert(cv == cargo_env(ev));
    }
    let mut out = dec_str(sorted.len() as u64);
    out.append(";");
    proof {
        reveal_strlit(";");
        assert(cv.skip(0) =~~= cv);
        assert(out@ =~= dec_of(cv.len() as nat) + seq![';']);
    }
    let mut k: usize = 0;
    while k < sorted.len()
        invariant
            k <= sorted@.len(),
            cv == env_views(sorted@),
            cv == cargo_env(ev),
            out@ + env_chain(cv.skip(k as int)) =~= env_blob(ev),
        decreases sorted@.len() - k,
    {
        let ghost rem = cv.skip(k as int);
        proof {
            assert(rem[0] == cv[k as int]);
            assert(rem.drop_first() =~~= cv.skip(k as int + 1));
        }
        push_lp(&mut out, sorted[k].0.as_str());
        out.append("=");
        push_lp(&mut out, sorted[k].1.as_str());
        proof {
            reveal_strlit("=");
            assert(out@ + env_chain(cv.skip(k as int + 1)) =~= env_blob(ev));
        }
        k = k + 1;
    }
    proof {
        assert(cv.skip(k as int) =~~= Seq::<(Seq<char>, Seq<char>)>::empty());
        assert(out@ =~= env_blob(ev));
    }
    out
}

/// Builds the whole transcript.
pub fn build_transcript(
    shlibs: &Vec<String>,
    pairs: &Vec<(String, Option<String>)>,
    sources: &Vec<String>,
    externs: &Vec<String>,
    env: &Vec<(String, String)>,
) -> (t: String)
    ensures
        t@ == key_transcript(
            views(shlibs@),
            pair_views(pairs@),
            views(sources@),
            views(externs@),
            env_views(env@),
        ),
{
    let mut t = String::from_str("3");
    let s1 = build_section(shlibs);
    t.append(s1.as_str());
    let s2 = build_args_blob(pairs);
    t.append(s2.as_str());
    let s3 = build_section(sources);
    t.append(s3.as_str());
    let s4 = build_section(externs);
    t.append(s4.as_str());
    let s5 = build_env_blob(env);
    t.append(s5.as_str());
    proof {
        assert(t@ =~= key_transcript(
            views(shlibs@),
            pair_views(pairs@),
            views(sources@),
            views(externs@),
            env_views(env@),
        ));
    }
    t
}

/// Derives the cache key from the five inputs.
pub fn compute_cache_key(
    shlibs: &Vec<String>,
    pairs: &Vec<(String, Option<String>)>,
    sources: &Vec<String>,
    externs: &Vec<String>,
    env: &Vec<(String, String)>,
) -> (k: String)
    ensures
        k@ == cache_key(
            views(shlibs@),
            pair_views(pairs@),
            views(sources@),
            views(externs@),
            env_views(env@),
        ),
        k@.len() == 40,
{
    let t = build_transcript(shlibs, pairs, sources, externs, env);
    transcript_digest(t.as_str())
}

/// The key is a function of its inputs and nothing else: deriving it twice
/// from equal inputs gives equal keys.
pub proof fn lemma_key_deterministic(
    shlibs1: Seq<Seq<char>>,
    pairs1: Seq<(Seq<char>, Option<Seq<char>>)>,
    sources1: Seq<Seq<char>>,
    externs1: Seq<Seq<char>>,
    env1: Seq<(Seq<char>, Seq<char>)>,
    shlibs2: Seq<Seq<char>>,
    pairs2: Seq<(Seq<char>, Option<Seq<char>>)>,
    sources2: Seq<Seq<char>>,
    externs2: Seq<Seq<char>>,
    env2: Seq<(Seq<char>, Seq<char>)>,
)
    requires
        shlibs1 == shlibs2,
        pairs1 == pairs2,
        sources1 == sources2,
        externs1 == externs2,
        env1 == env2,
    ensures
        cache_key(shlibs1, pairs1, sources1, externs1, env1) == cache_key(
            shlibs2,
            pairs2,
            sources2,
            externs2,
            env2,
        ),
{
}

/// Permuting the `--extern`, `-L` and `--cfg` pairs never changes the key:
/// two pair lists with the same non-sortable pairs in the same order and
/// the same sortable pairs in any order derive the same key.
pub proof fn lemma_key_sortable_order_invariant(
    shlibs: Seq<Seq<char>>,
    pairs1: Seq<(Seq<char>, Option<Seq<char>>)>,
    pairs2: Seq<(Seq<char>, Option<Seq<char>>)>,
    sources: Seq<Seq<char>>,
    externs: Seq<Seq<char>>,
    env: Seq<(Seq<char>, Seq<char>)>,
)
    requires
        pairs1.filter(unsortable_pred()) == pairs2.filter(unsortable_pred()),
        pairs1.filter(sortable_pred()).to_multiset() == pairs2.filter(
            sortable_pred(),
        ).to_multiset(),
    ensures
        cache_key(shlibs, pairs1, sources, externs, env) == cache_key(
            shlibs,
            pairs2,
            sources,
            externs,
            env,
        ),
{
    lemma_pair_le_total_ordering();
    let s1 = pairs1.filter(sortable_pred());
    let s2 = pairs2.filter(sortable_pred());
    s1.lemma_sort_by_ensures(pair_leq());
    s2.lemma_sort_by_ensures(pair_leq());
    lemma_sorted_unique(s1.sort_by(pair_leq()), s2.sort_by(pair_leq()), pair_leq());
    assert(canonical_pairs(pairs1) == canonical_pairs(pairs2));
}

/// The key reads the environment only through its `CARGO_`-prefixed
/// pairs: environments with the same multiset of those pairs derive the
/// same key, so changing any other variable never changes it.
pub proof fn lemma_key_env_invariant(
    shlibs: Seq<Seq<char>>,
    pairs: Seq<(Seq<char>, Option<Seq<char>>)>,
    sources: Seq<Seq<char>>,
    externs: Seq<Seq<char>>,
    env1: Seq<(Seq<char>, Seq<char>)>,
    env2: Seq<(Seq<char>, Seq<char>)>,
)
    requires
        env1.filter(cargo_pred()).to_multiset() == env2.filter(cargo_pred()).to_multiset(),
    ensures
        cache_key(shlibs, pairs, sources, externs, env1) == cache_key(
            shlibs,
            pairs,
            sources,
            externs,
            env2,
        ),
{
    lemma_env_le_total_ordering();
    let k1 = env1.filter(cargo_pred());
    let k2 = env2.filter(cargo_pred());
    k1.lemma_sort_by_ensures(env_leq());
    k2.lemma_sort_by_ensures(env_leq());
    lemma_sorted_unique(k1.sort_by(env_leq()), k2.sort_by(env_leq()), env_leq());
    assert(cargo_env(env1) == cargo_env(env2));
}


/// Every transcript carries the version tag at its head, so a change of
/// the tag reaches every transcript whatever the other inputs are.
pub proof fn lemma_transcript_versioned(
    shlibs: Seq<Seq<char>>,
    pairs: Seq<(Seq<char>, Option<Seq<char>>)>,
    sources: Seq<Seq<char>>,
    externs: Seq<Seq<char>>,
    env: Seq<(Seq<char>, Seq<char>)>,
)
    ensures
        version_tag().is_prefix_of(key_transcript(shlibs, pairs, sources, externs, env)),
{
    let t = key_transcript(shlibs, pairs, sources, externs, env);
    assert(version_tag() =~= t.subrange(0, version_tag().len() as int));
}

} // verus!
