//! The adapter's public shell: the compiler handle, the hasher bound to
//! one parsed invocation, and the compilation handle with its outputs map.
//! Process probes live outside; their results come in as plain values.

use vstd::prelude::*;

verus! {

use vstd::string::StrSliceExecFns;
use vstd::string::StringExecFns;
use crate::strkit::{last_index_of, lemma_last_index_of, str_eq, str_leq, str_rfind_char, substr};
use crate::order::{clone_strings, env_views, pair_views, sort_strings, views};
use crate::parse::{contains_str, parse_spec, CompilerArguments, ParsedArguments};
use crate::depinfo::join_path;
use crate::key::{cache_key, compute_cache_key};

/// Whether a finished compilation's result may be stored in the cache.
#[derive(Clone, Copy, Debug, PartialEq, Eq, Structural)]
pub enum Cacheable {
    Yes,
    No,
}

/// A compiler instance: its executable path and the digests of the shared
/// libraries in its system root, computed once at startup and folded into
/// every key.
#[derive(Debug)]
pub struct Rust {
    /// The path to the compiler executable.
    pub executable: String,
    /// The digests of the shared libraries the compiler links against,
    /// in sorted path order.
    pub compiler_shlibs_digests: Vec<String>,
}

/// The final path component of `p`.
pub open spec fn file_name_of(p: Seq<char>) -> Seq<char> {
    match last_index_of(p, '/') {
        Some(i) => p.skip(i + 1),
        None => p,
    }
}

/// The extension of `p`: what follows the last dot of its file name,
/// absent when there is no dot or the name starts with its only dot.
pub open spec fn ext_of(p: Seq<char>) -> Option<Seq<char>> {
    let name = file_name_of(p);
    match last_index_of(name, '.') {
        Some(j) => if j > 0 {
            Some(name.skip(j + 1))
        } else {
            None
        },
        None => None,
    }
}

/// Whether a path names a shared library.
pub open spec fn is_shared_lib(p: Seq<char>) -> bool {
    ext_of(p) == Some("so"@)
}

/// `is_shared_lib` as a predicate value.
pub open spec fn shared_lib_pred() -> spec_fn(Seq<char>) -> bool {
    |p: Seq<char>| is_shared_lib(p)
}

/// The shared libraries among `paths`, sorted, so the digest list is
/// reproducible whatever order the directory listing came in.
pub open spec fn shared_libs_spec(paths: Seq<Seq<char>>) -> Seq<Seq<char>> {
    paths.filter(shared_lib_pred()).sort_by(str_leq())
}

fn is_shared_lib_exec(p: &str) -> (r: bool)
    ensures
        r == is_shared_lib(p@),
{
    let n: usize = p.unicode_len();
    proof {
        lemma_last_index_of(p@, '/');
    }
    let start: usize = match str_rfind_char(p, '/') {
        Some(i) => i + 1,
        None => 0,
    };
    let name = substr(p, start, n);
    proof {
        assert(name@ =~= file_name_of(p@));
    }
    let ln: usize = name.as_str().unicode_len();
    proof {
        lemma_last_index_of(name@, '.');
    }
    match str_rfind_char(name.as_str(), '.') {
        Some(j) => {
            if j > 0 {
                let ext = substr(name.as_str(), j + 1, ln);
                proof {
                    assert(ext@ =~= file_name_of(p@).skip(j as int + 1));
                }
                str_eq(ext.as_str(), "so")
            } else {
                false
            }
        },
        None => false,
    }
}

/// Selects and sorts the shared libraries of a directory listing: the
/// compiler handle digests exactly these files.
pub fn select_shared_libs(paths: &Vec<String>) -> (r: Vec<String>)
    ensures
        views(r@) == shared_libs_spec(views(paths@)),
{
    let ghost pv = views(paths@);
    let mut kept: Vec<String> = Vec::new();
    let mut i: usize = 0;
    proof {
        assert(pv.take(0) =~~= Seq::<Seq<char>>::empty());
        assert(views(kept@) =~~= pv.take(0).filter(shared_lib_pred()));
    }
    while i < paths.len()
        invariant
            i <= paths@.len(),
            pv == views(paths@),
            views(kept@) == pv.take(i as int).filter(shared_lib_pred()),
        decreases paths@.len() - i,
    {
        let p = paths[i].clone();
        proof {
            assert(p@ == pv[i as int]);
            assert(pv.take(i as int + 1) =~~= pv.take(i as int).push(pv[i as int]));
            pv.take(i as int).lemma_filter_push(pv[i as int], shared_lib_pred());
        }
        if is_shared_lib_exec(p.as_str()) {
            proof {
                assert(views(kept@.push(p)) =~~= views(kept@).push(p@));
            }
            kept.push(p);
        }
        i = i + 1;
    }
    proof {
        assert(pv.take(i as int) =~~= pv);
    }
    sort_strings(&kept)
}

impl Rust {
    /// Creates a compiler handle from the executable path and the digests
    /// of its shared libraries, probed once at startup.
    pub fn new(executable: String, compiler_shlibs_digests: Vec<String>) -> (r: Rust)
        ensures
            r.executable == executable,
            r.compiler_shlibs_digests == compiler_shlibs_digests,
    {
        Rust { executable, compiler_shlibs_digests }
    }

    /// Parses a command line and, when it is cacheable, binds it to this
    /// compiler as a hasher.
    pub fn parse_arguments(&self, arguments: &Vec<String>) -> (r: CompilerArguments<RustHasher>)
        ensures
            match r {
                CompilerArguments::Cacheable(h) => {
                    &&& parse_spec(views(arguments@)) == CompilerArguments::Cacheable(
                        h.parsed_args@,
                    )
                    &&& h.executable@ == self.executable@
                    &&& views(h.compiler_shlibs_digests@) == views(self.compiler_shlibs_digests@)
                },
                CompilerArguments::NotCompilation => parse_spec(views(arguments@))
                    is NotCompilation,
                CompilerArguments::CannotCache(why) => parse_spec(views(arguments@))
                    == CompilerArguments::<crate::parse::ParsedView>::CannotCache(why),
            },
    {
        match crate::parse::parse_arguments(arguments) {
            CompilerArguments::Cacheable(args) => CompilerArguments::Cacheable(
                RustHasher {
                    executable: self.executable.clone(),
                    compiler_shlibs_digests: clone_strings(&self.compiler_shlibs_digests),
                    parsed_args: args,
                },
            ),
            CompilerArguments::NotCompilation => CompilerArguments::NotCompilation,
            CompilerArguments::CannotCache(why) => CompilerArguments::CannotCache(why),
        }
    }
}

/// The positional token list of a pair list: each flag followed by its
/// value when present, occurrence order kept.
pub open spec fn flat_tokens(ps: Seq<(Seq<char>, Option<Seq<char>>)>) -> Seq<Seq<char>>
    decreases ps.len(),
{
    if ps.len() == 0 {
        Seq::empty()
    } else {
        let p = ps[0];
        let rest = flat_tokens(ps.drop_first());
        match p.1 {
            None => seq![p.0] + rest,
            Some(v) => seq![p.0, v] + rest,
        }
    }
}

/// The token list for the dep-info probe: as `flat_tokens`, but with every
/// `--emit` and `--out-dir` pair removed, so the probe's own output
/// switches are not overridden.
pub open spec fn probe_tokens(ps: Seq<(Seq<char>, Option<Seq<char>>)>) -> Seq<Seq<char>>
    decreases ps.len(),
{
    if ps.len() == 0 {
        Seq::empty()
    } else {
        let p = ps[0];
        let rest = probe_tokens(ps.drop_first());
        if p.0 == "--emit"@ || p.0 == "--out-dir"@ {
            rest
        } else {
            match p.1 {
                None => seq![p.0] + rest,
                Some(v) => seq![p.0, v] + rest,
            }
        }
    }
}

impl ParsedArguments {
    /// The argument vector for the dep-info probe: the pairs without
    /// `--emit` and `--out-dir`, flattened back to positional tokens.
    pub fn filtered_arguments(&self) -> (r: Vec<String>)
        ensures
            views(r@) == probe_tokens(pair_views(self.arguments@)),
    {
        let ghost pvs = pair_views(self.arguments@);
        let mut r: Vec<String> = Vec::new();
        let mut i: usize = 0;
        proof {
            assert(pvs.skip(0) =~~= pvs);
            assert(views(r@) =~~= Seq::<Seq<char>>::empty());
        }
        while i < self.arguments.len()
            invariant
                i <= self.arguments@.len(),
                pvs == pair_views(self.arguments@),
                views(r@) + probe_tokens(pvs.skip(i as int)) =~~= probe_tokens(pvs),
            decreases self.arguments@.len() - i,
        {
            let ghost rem = pvs.skip(i as int);
            proof {
                assert(rem[0] == pvs[i as int]);
                assert(rem.drop_first() =~~= pvs.skip(i as int + 1));
            }
            let p = &self.arguments[i];
            if !(str_eq(p.0.as_str(), "--emit") || str_eq(p.0.as_str(), "--out-dir")) {
                let flag = p.0.clone();
                proof {
                    assert(views(r@.push(flag)) =~~= views(r@).push(flag@));
                }
                r.push(flag);
                match &p.1 {
                    Some(v) => {
                        let value = v.clone();
                        proof {
                            assert(views(r@.push(value)) =~~= views(r@).push(value@));
                        }
                        r.push(value);
                    },
                    None => {},
                }
            }
            proof {
                assert(views(r@) + probe_tokens(pvs.skip(i as int + 1)) =~~= probe_tokens(pvs));
            }
            i = i + 1;
        }
        proof {
            assert(pvs.skip(i as int) =~~= Seq::<(Seq<char>, Option<Seq<char>>)>::empty());
            assert(views(r@) =~~= probe_tokens(pvs));
        }
        r
    }

    /// The finalized argument vector: the pairs flattened back to
    /// positional tokens, for the file-name probe and the compilation.
    pub fn flattened_arguments(&self) -> (r: Vec<String>)
        ensures
            views(r@) == flat_tokens(pair_views(self.arguments@)),
    {
        let ghost pvs = pair_views(self.arguments@);
        let mut r: Vec<String> = Vec::new();
        let mut i: usize = 0;
        proof {
            assert(pvs.skip(0) =~~= pvs);
            assert(views(r@) =~~= Seq::<Seq<char>>::empty());
        }
        while i < self.arguments.len()
            invariant
                i <= self.arguments@.len(),
                pvs == pair_views(self.arguments@),
                views(r@) + flat_tokens(pvs.skip(i as int)) =~~= flat_tokens(pvs),
            decreases self.arguments@.len() - i,
        {
            let ghost rem = pvs.skip(i as int);
            proof {
                assert(rem[0] == pvs[i as int]);
                assert(rem.drop_first() =~~= pvs.skip(i as int + 1));
            }
            let p = &self.arguments[i];
            let flag = p.0.clone();
            proof {
                assert(views(r@.push(flag)) =~~= views(r@).push(flag@));
            }
            r.push(flag);
            match &p.1 {
                Some(v) => {
                    let value = v.clone();
                    proof {
                        assert(views(r@.push(value)) =~~= views(r@).push(value@));
                    }
                    r.push(value);
                },
                None => {},
            }
            proof {
                assert(views(r@) + flat_tokens(pvs.skip(i as int + 1)) =~~= flat_tokens(pvs));
            }
            i = i + 1;
        }
        proof {
            assert(pvs.skip(i as int) =~~= Seq::<(Seq<char>, Option<Seq<char>>)>::empty());
            assert(views(r@) =~~= flat_tokens(pvs));
        }
        r
    }
}

/// The outputs map: each reported basename joined onto the output
/// directory, and the dep-info file added when it is not already among
/// the reported names.
pub open spec fn outputs_spec(
    names: Seq<Seq<char>>,
    dir: Seq<char>,
    dep: Option<Seq<char>>,
) -> Seq<(Seq<char>, Seq<char>)> {
    let base = names.map_values(|n: Seq<char>| (n, join_path(dir, n)));
    match dep {
        Some(d) => if contains_str(names, d) {
            base
        } else {
            base.push((d, join_path(dir, d)))
        },
        None => base,
    }
}

/// Builds the outputs map.
pub fn build_outputs(names: &Vec<String>, dir: &str, dep: &Option<String>) -> (r: Vec<
    (String, String),
>)
    ensures
        env_views(r@) == outputs_spec(
            views(names@),
            dir@,
            match dep {
                Some(d) => Some(d@),
                None => None,
            },
        ),
{
    let ghost nv = views(names@);
    let ghost base = nv.map_values(|n: Seq<char>| (n, join_path(dir@, n)));
    let mut out: Vec<(String, String)> = Vec::new();
    let mut i: usize = 0;
    proof {
        assert(env_views(out@) =~~= base.take(0));
    }
    while i < names.len()
        invariant
            i <= names@.len(),
            nv == views(names@),
            base == nv.map_values(|n: Seq<char>| (n, join_path(dir@, n))),
            env_views(out@) == base.take(i as int),
        decreases names@.len() - i,
    {
        let n = names[i].clone();
        let p = crate::depinfo::join_path_exec(dir, n.as_str());
        proof {
            assert(base[i as int] == (nv[i as int], join_path(dir@, nv[i as int])));
            assert(env_views(out@.push((n, p))) =~~= env_views(out@).push((n@, p@)));
            assert(env_views(out@).push((n@, p@)) =~~= base.take(i as int + 1));
        }
        out.push((n, p));
        i = i + 1;
    }
    proof {
        assert(base.take(i as int) =~~= base);
    }
    match dep {
        None => out,
        Some(d) => {
            let mut found = false;
            let mut k: usize = 0;
            while k < names.len()
                invariant
                    k <= names@.len(),
                    nv == views(names@),
                    found == exists|j: int| 0 <= j < k && nv[j] == d@,
                decreases names@.len() - k,
            {
                if str_eq(names[k].as_str(), d.as_str()) {
                    proof {
                        assert(nv[k as int] == d@);
                    }
                    found = true;
                }
                k = k + 1;
            }
            proof {
                assert(found == contains_str(nv, d@));
            }
            if !found {
                let p = crate::depinfo::join_path_exec(dir, d.as_str());
                let name = d.clone();
                proof {
                    assert(env_views(out@.push((name, p))) =~~= env_views(out@).push((d@, p@)));
                }
                out.push((name, p));
            }
            out
        },
    }
}

/// A parsed invocation bound to a compiler, ready to derive its key.
#[derive(Debug)]
pub struct RustHasher {
    /// The path to the compiler executable.
    pub executable: String,
    /// The compiler's shared-library digests.
    pub compiler_shlibs_digests: Vec<String>,
    /// The parsed invocation.
    pub parsed_args: ParsedArguments,
}

/// The derived key, bundled with the compilation to run on a miss.
#[derive(Debug)]
pub struct HashResult {
    /// The cache key.
    pub key: String,
    /// The compilation handle.
    pub compilation: RustCompilation,
}

/// An immutable description of the compilation to run on a cache miss.
#[derive(Debug)]
pub struct RustCompilation {
    /// The path to the compiler executable.
    pub executable: String,
    /// The finalized argument vector.
    pub arguments: Vec<String>,
    /// Output basename to output path.
    pub outputs: Vec<(String, String)>,
    /// The crate being compiled.
    pub crate_name: String,
}

impl RustHasher {
    /// Derives the cache key from this invocation and the probe results:
    /// the digests of the sources the dep-info probe listed (in their
    /// sorted order), the digests of the extern artifacts (in the parse's
    /// sorted order), the environment, and the output names the file-name
    /// probe reported.  Returns the key with the compilation handle.
    pub fn generate_hash_key(
        &self,
        source_hashes: &Vec<String>,
        extern_hashes: &Vec<String>,
        env_vars: &Vec<(String, String)>,
        output_names: &Vec<String>,
    ) -> (r: HashResult)
        ensures
            r.key@ == cache_key(
                views(self.compiler_shlibs_digests@),
                pair_views(self.parsed_args.arguments@),
                views(source_hashes@),
                views(extern_hashes@),
                env_views(env_vars@),
            ),
            r.compilation.executable@ == self.executable@,
            views(r.compilation.arguments@) == flat_tokens(pair_views(self.parsed_args.arguments@)),
            r.compilation.crate_name@ == self.parsed_args.crate_name@,
            env_views(r.compilation.outputs@) == outputs_spec(
                views(output_names@),
                self.parsed_args.output_dir@,
                match self.parsed_args.dep_info {
                    Some(d) => Some(d@),
                    None => None,
                },
            ),
    {
        let key = compute_cache_key(
            &self.compiler_shlibs_digests,
            &self.parsed_args.arguments,
            source_hashes,
            extern_hashes,
            env_vars,
        );
        let arguments = self.parsed_args.flattened_arguments();
        let outputs = build_outputs(
            output_names,
            self.parsed_args.output_dir.as_str(),
            &self.parsed_args.dep_info,
        );
        HashResult {
            key,
            compilation: RustCompilation {
                executable: self.executable.clone(),
                arguments,
                outputs,
                crate_name: self.parsed_args.crate_name.clone(),
            },
        }
    }

    /// The human name of what is being compiled: the crate name.
    pub fn output_pretty(&self) -> (r: String)
        ensures
            r@ == self.parsed_args.crate_name@,
    {
        self.parsed_args.crate_name.clone()
    }
}

impl RustCompilation {
    /// The outputs map, as `(basename, full path)` pairs.
    pub fn outputs(&self) -> (r: &Vec<(String, String)>)
        ensures
            r == &self.outputs,
    {
        &self.outputs
    }
}

} // verus!
