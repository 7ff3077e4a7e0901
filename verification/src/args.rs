//! The argument iterator: pairing raw command-line tokens into
//! `(flag, optional value)` pairs against the fixed set of flags that take a
//! value, resolving both the attached `--flag=value` and the detached
//! `--flag value` form.

use vstd::prelude::*;

verus! {

use vstd::string::StrSliceExecFns;
use vstd::string::StringExecFns;
use crate::strkit::{first_index_of, lemma_first_index_of, str_find_char, str_starts_with, substr};
use crate::order::{views, pair_views};

/// The flags of the compiler's command line that take a value.
pub open spec fn args_with_value_spec() -> Seq<Seq<char>> {
    seq![
        "--cfg"@,
        "-L"@,
        "-l"@,
        "--crate-type"@,
        "--crate-name"@,
        "--emit"@,
        "--print"@,
        "-o"@,
        "--out-dir"@,
        "--explain"@,
        "--target"@,
        "-W"@,
        "--warn"@,
        "-A"@,
        "--allow"@,
        "-D"@,
        "--deny"@,
        "-F"@,
        "--forbid"@,
        "--cap-lints"@,
        "-C"@,
        "--codegen"@,
        "--extern"@,
        "--sysroot"@,
        "-Z"@,
        "--error-format"@,
        "--color"@,
        "--pretty"@,
        "--unpretty"@,
    ]
}

/// Builds the value-taking flag set as owned strings.
pub fn args_with_value() -> (v: Vec<String>)
    ensures
        views(v@) == args_with_value_spec(),
{
    let mut v: Vec<String> = Vec::new();
    v.push(String::from_str("--cfg"));
    v.push(String::from_str("-L"));
    v.push(String::from_str("-l"));
    v.push(String::from_str("--crate-type"));
    v.push(String::from_str("--crate-name"));
    v.push(String::from_str("--emit"));
    v.push(String::from_str("--print"));
    v.push(String::from_str("-o"));
    v.push(String::from_str("--out-dir"));
    v.push(String::from_str("--explain"));
    v.push(String::from_str("--target"));
    v.push(String::from_str("-W"));
    v.push(String::from_str("--warn"));
    v.push(String::from_str("-A"));
    v.push(String::from_str("--allow"));
    v.push(String::from_str("-D"));
    v.push(String::from_str("--deny"));
    v.push(String::from_str("-F"));
    v.push(String::from_str("--forbid"));
    v.push(String::from_str("--cap-lints"));
    v.push(String::from_str("-C"));
    v.push(String::from_str("--codegen"));
    v.push(String::from_str("--extern"));
    v.push(String::from_str("--sysroot"));
    v.push(String::from_str("-Z"));
    v.push(String::from_str("--error-format"));
    v.push(String::from_str("--color"));
    v.push(String::from_str("--pretty"));
    v.push(String::from_str("--unpretty"));
    proof {
        assert(views(v@) =~~= args_with_value_spec());
    }
    v
}

/// Whether `a` belongs to the flag set `set`: it equals a member or has a
/// member as a prefix, which matches both the attached and the detached
/// form in one rule.
pub open spec fn arg_in_spec(a: Seq<char>, set: Seq<Seq<char>>) -> bool {
    exists|i: int| 0 <= i < set.len() && (#[trigger] set[i]).is_prefix_of(a)
}

/// Decides membership of `arg` in the flag set.
pub fn arg_in(arg: &str, set: &Vec<String>) -> (r: bool)
    ensures
        r == arg_in_spec(arg@, views(set@)),
{
    let mut i: usize = 0;
    while i < set.len()
        invariant
            i <= set@.len(),
            forall|j: int| 0 <= j < i ==> !(#[trigger] views(set@)[j]).is_prefix_of(arg@),
        decreases set@.len() - i,
    {
        if str_starts_with(arg, set[i].as_str()) {
            proof {
                assert(views(set@)[i as int].is_prefix_of(arg@));
            }
            return true;
        }
        i = i + 1;
    }
    false
}

/// The pairs that the argument iterator yields for the token list `args`:
/// a value-taking token with an `=` splits at the first `=`; one without
/// consumes the next token as its value; anything else stands alone.
pub open spec fn pairs_of(args: Seq<Seq<char>>, set: Seq<Seq<char>>) -> Seq<
    (Seq<char>, Option<Seq<char>>),
>
    decreases args.len(),
{
    if args.len() == 0 {
        Seq::empty()
    } else {
        let a = args[0];
        if arg_in_spec(a, set) {
            match first_index_of(a, '=') {
                Some(i) => seq![(a.take(i), Some(a.skip(i + 1)))] + pairs_of(args.drop_first(), set),
                None => if args.len() >= 2 {
                    seq![(a, Some(args[1]))] + pairs_of(args.skip(2), set)
                } else {
                    seq![(a, None)]
                },
            }
        } else {
            seq![(a, None)] + pairs_of(args.drop_first(), set)
        }
    }
}

/// Materializes the iterator: walks `args` once and yields every token in
/// one pair, in order.
pub fn split_args(args: &Vec<String>, set: &Vec<String>) -> (r: Vec<(String, Option<String>)>)
    ensures
        pair_views(r@) == pairs_of(views(args@), views(set@)),
{
    let ghost all = views(args@);
    let ghost sv = views(set@);
    let mut r: Vec<(String, Option<String>)> = Vec::new();
    let mut i: usize = 0;
    proof {
        assert(pair_views(r@) =~~= Seq::<(Seq<char>, Option<Seq<char>>)>::empty());
        assert(all.skip(0) =~~= all);
    }
    while i < args.len()
        invariant
            i <= args@.len(),
            all == views(args@),
            sv == views(set@),
            pair_views(r@) + pairs_of(all.skip(i as int), sv) =~~= pairs_of(all, sv),
        decreases args@.len() - i,
    {
        let a: &String = &args[i];
        let ghost av = a@;
        let ghost old_r = r@;
        let ghost rem = all.skip(i as int);
        proof {
            assert(rem[0] == all[i as int]);
            assert(rem.len() == all.len() - i);
        }
        let step: usize;
        if arg_in(a.as_str(), set) {
            match str_find_char(a.as_str(), '=') {
                Some(e) => {
                    proof {
                        lemma_first_index_of(av, '=');
                    }
                    let l: usize = a.as_str().unicode_len();
                    let flag = substr(a.as_str(), 0, e);
                    let val = substr(a.as_str(), e + 1, l);
                    proof {
                        assert(flag@ =~= av.take(e as int));
                        assert(val@ =~= av.skip(e as int + 1));
                        assert(pairs_of(rem, sv) == seq![(av.take(e as int), Some(
                            av.skip(e as int + 1),
                        ))] + pairs_of(rem.drop_first(), sv));
                    }
                    r.push((flag, Some(val)));
                    step = 1;
                    proof {
                        assert(rem.drop_first() =~~= all.skip(i as int + 1));
                        assert(pair_views(r@) =~~= pair_views(old_r).push(
                            (av.take(e as int), Some(av.skip(e as int + 1))),
                        ));
                    }
                },
                None => {
                    if i + 1 < args.len() {
                        let flag = a.clone();
                        let val = args[i + 1].clone();
                        proof {
                            assert(rem[1] == all[i as int + 1]);
                            assert(pairs_of(rem, sv) == seq![(av, Some(all[i as int + 1]))]
                                + pairs_of(rem.skip(2), sv));
                        }
                        r.push((flag, Some(val)));
                        step = 2;
                        proof {
                            assert(rem.skip(2) =~~= all.skip(i as int + 2));
                            assert(pair_views(r@) =~~= pair_views(old_r).push(
                                (av, Some(all[i as int + 1])),
                            ));
                        }
                    } else {
                        let flag = a.clone();
                        proof {
                            assert(rem.len() == 1);
                            assert(pairs_of(rem, sv) == seq![(av, Option::<Seq<char>>::None)]);
                        }
                        r.push((flag, None));
                        step = 1;
                        proof {
                            assert(all.skip(i as int + 1) =~~= Seq::<Seq<char>>::empty());
                            assert(pairs_of(all.skip(i as int + 1), sv) =~~= Seq::<
                                (Seq<char>, Option<Seq<char>>),
                            >::empty());
                            assert(pair_views(r@) =~~= pair_views(old_r).push(
                                (av, Option::<Seq<char>>::None),
                            ));
                        }
                    }
                },
            }
        } else {
            let flag = a.clone();
            proof {
                assert(pairs_of(rem, sv) == seq![(av, Option::<Seq<char>>::None)] + pairs_of(
                    rem.drop_first(),
                    sv,
                ));
            }
            r.push((flag, None));
            step = 1;
            proof {
                assert(rem.drop_first() =~~= all.skip(i as int + 1));
                assert(pair_views(r@) =~~= pair_views(old_r).push((av, Option::<Seq<char>>::None)));
            }
        }
        i = i + step;
        proof {
            assert(pair_views(r@) + pairs_of(all.skip(i as int), sv) =~~= pairs_of(all, sv));
        }
    }
    proof {
        assert(all.skip(i as int) =~~= Seq::<Seq<char>>::empty());
        assert(pairs_of(all.skip(i as int), sv) =~~= Seq::<(Seq<char>, Option<Seq<char>>)>::empty());
        assert(pair_views(r@) =~~= pairs_of(all, sv));
    }
    r
}


/// Token lists whose pairing is self-contained: every value-taking flag in
/// detached form finds its value before the end of the list.
pub open spec fn closed_args(args: Seq<Seq<char>>, set: Seq<Seq<char>>) -> bool
    decreases args.len(),
{
    if args.len() == 0 {
        true
    } else if arg_in_spec(args[0], set) && first_index_of(args[0], '=') is None {
        args.len() >= 2 && closed_args(args.skip(2), set)
    } else {
        closed_args(args.drop_first(), set)
    }
}

/// Pairing distributes over concatenation after a closed prefix.
pub proof fn lemma_pairs_concat(pre: Seq<Seq<char>>, tail: Seq<Seq<char>>, set: Seq<Seq<char>>)
    requires
        closed_args(pre, set),
    ensures
        pairs_of(pre + tail, set) == pairs_of(pre, set) + pairs_of(tail, set),
    decreases pre.len(),
{
    if pre.len() == 0 {
        assert(pre + tail =~~= tail);
        assert(pairs_of(pre, set) + pairs_of(tail, set) =~~= pairs_of(tail, set));
    } else {
        let w = pre + tail;
        assert(w[0] == pre[0]);
        assert(w.len() == pre.len() + tail.len());
        if arg_in_spec(pre[0], set) {
            match first_index_of(pre[0], '=') {
                Some(e) => {
                    assert(w.drop_first() =~~= pre.drop_first() + tail);
                    lemma_pairs_concat(pre.drop_first(), tail, set);
                    assert(pairs_of(pre + tail, set) =~~= pairs_of(pre, set) + pairs_of(
                        tail,
                        set,
                    ));
                },
                None => {
                    assert(pre.len() >= 2);
                    assert(w[1] == pre[1]);
                    assert(w.skip(2) =~~= pre.skip(2) + tail);
                    lemma_pairs_concat(pre.skip(2), tail, set);
                    assert(pairs_of(pre + tail, set) =~~= pairs_of(pre, set) + pairs_of(
                        tail,
                        set,
                    ));
                },
            }
        } else {
            assert(w.drop_first() =~~= pre.drop_first() + tail);
            lemma_pairs_concat(pre.drop_first(), tail, set);
            assert(pairs_of(pre + tail, set) =~~= pairs_of(pre, set) + pairs_of(tail, set));
        }
    }
}

/// Attached and detached forms are equivalent: after any closed prefix,
/// the single token `flag=value` yields exactly the pairs that the two
/// tokens `flag` `value` yield, for every value-taking flag without an
/// `=` of its own.
pub proof fn lemma_attached_detached(
    pre: Seq<Seq<char>>,
    f: Seq<char>,
    v: Seq<char>,
    rest: Seq<Seq<char>>,
    set: Seq<Seq<char>>,
)
    requires
        closed_args(pre, set),
        arg_in_spec(f, set),
        first_index_of(f, '=') is None,
    ensures
        pairs_of(pre + seq![f + seq!['='] + v] + rest, set) == pairs_of(
            pre + seq![f, v] + rest,
            set,
        ),
{
    let a = f + seq!['='] + v;
    lemma_first_index_of(f, '=');
    lemma_first_index_of(a, '=');
    assert(a[f.len() as int] == '=');
    match first_index_of(a, '=') {
        None => {
            assert(false);
        },
        Some(k) => {
            assert(k == f.len()) by {
                if k < f.len() {
                    assert(a[k] == f[k]);
                } else if k > f.len() {
                    assert(a[f.len() as int] != '=');
                }
            }
        },
    }
    assert(arg_in_spec(a, set)) by {
        let i = choose|i: int| 0 <= i < set.len() && (#[trigger] set[i]).is_prefix_of(f);
        assert(set[i].len() <= a.len());
        assert(set[i] =~= a.subrange(0, set[i].len() as int)) by {
            assert(forall|j: int| 0 <= j < set[i].len() ==> a[j] == #[trigger] f[j]);
            assert(forall|j: int|
                0 <= j < set[i].len() ==> #[trigger] set[i][j] == f.subrange(
                    0,
                    set[i].len() as int,
                )[j]);
        }
        assert(set[i].is_prefix_of(a));
    }
    assert((seq![a] + rest).drop_first() =~~= rest);
    assert(a.take(f.len() as int) =~= f);
    assert(a.skip(f.len() as int + 1) =~= v);
    assert(pairs_of(seq![a] + rest, set) =~~= seq![(f, Some(v))] + pairs_of(rest, set));
    assert((seq![f, v] + rest)[1] == v);
    assert((seq![f, v] + rest).skip(2) =~~= rest);
    assert(pairs_of(seq![f, v] + rest, set) =~~= seq![(f, Some(v))] + pairs_of(rest, set));
    lemma_pairs_concat(pre, seq![a] + rest, set);
    lemma_pairs_concat(pre, seq![f, v] + rest, set);
    assert(pre + seq![a] + rest =~~= pre + (seq![a] + rest));
    assert(pre + seq![f, v] + rest =~~= pre + (seq![f, v] + rest));
}

} // verus!
