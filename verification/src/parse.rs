//! The parser / gate: walks the argument pairs once, classifies the
//! invocation as cacheable, not a compilation, or impossible to cache with
//! a reason, and extracts the fields that identify a compilation.  The
//! whole behaviour is pinned by `parse_spec`, a specification-level state
//! machine over the same pairs the executable parser consumes.

use vstd::prelude::*;

verus! {

use vstd::string::StrSliceExecFns;
use vstd::string::StringExecFns;
use crate::strkit::{first_index_of, lemma_first_index_of, split_on, str_eq, str_find_char, str_leq,
    str_split, substr};
use crate::order::{pair_views, sort_strings, views};
use crate::args::{args_with_value, args_with_value_spec, arg_in_spec, closed_args,
    lemma_attached_detached, pairs_of, split_args};

/// Why an invocation cannot be cached.  A closed set, so callers can
/// enumerate the reasons.
#[derive(Clone, Copy, Debug, PartialEq, Eq, Structural)]
pub enum CannotCacheReason {
    /// An argument was not valid UTF-8; the compiler itself requires UTF-8.
    NotUtf8,
    /// `-o` redirects output to a single file.
    OutputToFile,
    /// `-l` links a native library, whose search path is not modeled.
    NativeLibrary,
    /// `--emit` was given more than once.
    MultipleEmit,
    /// `--crate-type` asks for a kind that invokes the system linker.
    CrateTypeUnsupported,
    /// Compilation from standard input.
    Stdin,
    /// More than one input file.
    MultipleInputFiles,
    /// `--emit` asks for a kind other than `link` or `dep-info`.
    UnsupportedEmit,
    /// No input file was given.
    MissingInput,
    /// No `--out-dir` was given.
    MissingOutputDir,
    /// No `--emit` was given.
    MissingEmit,
    /// No `--crate-name` was given.
    MissingCrateName,
}

impl CannotCacheReason {
    /// The short text of the reason.
    pub open spec fn text_spec(self) -> Seq<char> {
        match self {
            CannotCacheReason::NotUtf8 => "not utf-8"@,
            CannotCacheReason::OutputToFile => "-o"@,
            CannotCacheReason::NativeLibrary => "-l"@,
            CannotCacheReason::MultipleEmit => "more than one --emit"@,
            CannotCacheReason::CrateTypeUnsupported => "crate-type"@,
            CannotCacheReason::Stdin => "stdin"@,
            CannotCacheReason::MultipleInputFiles => "multiple input files"@,
            CannotCacheReason::UnsupportedEmit => "unsupported --emit"@,
            CannotCacheReason::MissingInput => "missing input"@,
            CannotCacheReason::MissingOutputDir => "missing output_dir"@,
            CannotCacheReason::MissingEmit => "missing emit"@,
            CannotCacheReason::MissingCrateName => "missing crate_name"@,
        }
    }

    /// Renders the reason as its short text.
    pub fn text(&self) -> (r: String)
        ensures
            r@ == self.text_spec(),
    {
        match self {
            CannotCacheReason::NotUtf8 => String::from_str("not utf-8"),
            CannotCacheReason::OutputToFile => String::from_str("-o"),
            CannotCacheReason::NativeLibrary => String::from_str("-l"),
            CannotCacheReason::MultipleEmit => String::from_str("more than one --emit"),
            CannotCacheReason::CrateTypeUnsupported => String::from_str("crate-type"),
            CannotCacheReason::Stdin => String::from_str("stdin"),
            CannotCacheReason::MultipleInputFiles => String::from_str("multiple input files"),
            CannotCacheReason::UnsupportedEmit => String::from_str("unsupported --emit"),
            CannotCacheReason::MissingInput => String::from_str("missing input"),
            CannotCacheReason::MissingOutputDir => String::from_str("missing output_dir"),
            CannotCacheReason::MissingEmit => String::from_str("missing emit"),
            CannotCacheReason::MissingCrateName => String::from_str("missing crate_name"),
        }
    }
}

/// The outcome of parsing an argument vector.
#[derive(Debug)]
pub enum CompilerArguments<T> {
    /// The invocation is a compilation whose result can be cached.
    Cacheable(T),
    /// The invocation is informational or otherwise not a build.
    NotCompilation,
    /// The invocation is a compilation the cache must not serve.
    CannotCache(CannotCacheReason),
}

/// The fields extracted from a cacheable invocation.
#[derive(Debug)]
pub struct ParsedArguments {
    /// The full command line as `(flag, optional value)` pairs, in the
    /// original occurrence order.
    pub arguments: Vec<(String, Option<String>)>,
    /// The value of `--out-dir`.
    pub output_dir: String,
    /// The artifact paths from `--extern name=path`, sorted.
    pub externs: Vec<String>,
    /// The value of `--crate-name`.
    pub crate_name: String,
    /// The dep-info file name, when `dep-info` is among the emit kinds.
    pub dep_info: Option<String>,
}

/// The mathematical content of a `ParsedArguments`.
pub ghost struct ParsedView {
    pub arguments: Seq<(Seq<char>, Option<Seq<char>>)>,
    pub output_dir: Seq<char>,
    pub externs: Seq<Seq<char>>,
    pub crate_name: Seq<char>,
    pub dep_info: Option<Seq<char>>,
}

impl View for ParsedArguments {
    type V = ParsedView;

    open spec fn view(&self) -> ParsedView {
        ParsedView {
            arguments: pair_views(self.arguments@),
            output_dir: self.output_dir@,
            externs: views(self.externs@),
            crate_name: self.crate_name@,
            dep_info: match self.dep_info {
                Some(s) => Some(s@),
                None => None,
            },
        }
    }
}

/// The accumulating state of the scan over the argument pairs.
pub ghost struct ScanState {
    pub emit: Option<Seq<Seq<char>>>,
    pub input: Option<Seq<char>>,
    pub output_dir: Option<Seq<char>>,
    pub crate_name: Option<Seq<char>>,
    pub extra_filename: Option<Seq<char>>,
    pub externs: Seq<Seq<char>>,
}

/// The scan starts with nothing recorded.
pub open spec fn init_state() -> ScanState {
    ScanState {
        emit: None,
        input: None,
        output_dir: None,
        crate_name: None,
        extra_filename: None,
        externs: Seq::empty(),
    }
}

/// The crate kinds that do not invoke the system linker.
pub open spec fn is_allowed_crate_type(t: Seq<char>) -> bool {
    t == "lib"@ || t == "rlib"@ || t == "staticlib"@
}

/// Whether a `--crate-type` value names any other kind.
pub open spec fn has_bad_crate_type(v: Seq<char>) -> bool {
    exists|i: int|
        0 <= i < split_on(v, ',').len() && !is_allowed_crate_type(#[trigger] split_on(v, ',')[i])
}

/// Whether `t` occurs in `ss`.
pub open spec fn contains_str(ss: Seq<Seq<char>>, t: Seq<char>) -> bool {
    exists|i: int| 0 <= i < ss.len() && ss[i] == t
}

/// One step of the scan over the pair `p`; earlier branches win.
pub open spec fn scan_step(st: ScanState, p: (Seq<char>, Option<Seq<char>>)) -> CompilerArguments<
    ScanState,
> {
    let flag = p.0;
    if flag == "--help"@ || flag == "-V"@ || flag == "--version"@ || flag == "--print"@ || flag
        == "--explain"@ || flag == "--pretty"@ || flag == "--unpretty"@ {
        CompilerArguments::NotCompilation
    } else if flag == "-o"@ {
        CompilerArguments::CannotCache(CannotCacheReason::OutputToFile)
    } else if flag == "-l"@ {
        CompilerArguments::CannotCache(CannotCacheReason::NativeLibrary)
    } else if flag == "--emit"@ {
        if st.emit is Some {
            CompilerArguments::CannotCache(CannotCacheReason::MultipleEmit)
        } else {
            CompilerArguments::Cacheable(
                ScanState {
                    emit: match p.1 {
                        Some(v) => Some(split_on(v, ',')),
                        None => None,
                    },
                    ..st
                },
            )
        }
    } else if flag == "--crate-type"@ {
        match p.1 {
            Some(v) => if has_bad_crate_type(v) {
                CompilerArguments::CannotCache(CannotCacheReason::CrateTypeUnsupported)
            } else {
                CompilerArguments::Cacheable(st)
            },
            None => CompilerArguments::Cacheable(st),
        }
    } else if flag == "--out-dir"@ {
        CompilerArguments::Cacheable(ScanState { output_dir: p.1, ..st })
    } else if flag == "--crate-name"@ {
        CompilerArguments::Cacheable(ScanState { crate_name: p.1, ..st })
    } else if flag == "--extern"@ {
        match p.1 {
            Some(v) => match first_index_of(v, '=') {
                Some(i) => CompilerArguments::Cacheable(
                    ScanState { externs: st.externs.push(v.skip(i + 1)), ..st },
                ),
                None => CompilerArguments::Cacheable(st),
            },
            None => CompilerArguments::Cacheable(st),
        }
    } else if flag == "-C"@ || flag == "--codegen"@ {
        match p.1 {
            Some(v) => match first_index_of(v, '=') {
                Some(i) => if v.take(i) == "extra-filename"@ {
                    CompilerArguments::Cacheable(ScanState { extra_filename: Some(v.skip(i + 1)), ..st })
                } else {
                    CompilerArguments::Cacheable(st)
                },
                None => CompilerArguments::Cacheable(st),
            },
            None => CompilerArguments::Cacheable(st),
        }
    } else if flag == "-"@ {
        CompilerArguments::CannotCache(CannotCacheReason::Stdin)
    } else if flag.len() == 0 || flag[0] != '-' {
        if st.input is Some {
            CompilerArguments::CannotCache(CannotCacheReason::MultipleInputFiles)
        } else {
            CompilerArguments::Cacheable(ScanState { input: Some(flag), ..st })
        }
    } else {
        CompilerArguments::Cacheable(st)
    }
}

/// The scan over a whole pair sequence; the first fatal step wins.
pub open spec fn scan(
    pairs: Seq<(Seq<char>, Option<Seq<char>>)>,
    st: ScanState,
) -> CompilerArguments<ScanState>
    decreases pairs.len(),
{
    if pairs.len() == 0 {
        CompilerArguments::Cacheable(st)
    } else {
        match scan_step(st, pairs[0]) {
            CompilerArguments::Cacheable(st2) => scan(pairs.drop_first(), st2),
            CompilerArguments::NotCompilation => CompilerArguments::NotCompilation,
            CompilerArguments::CannotCache(r) => CompilerArguments::CannotCache(r),
        }
    }
}

/// The required-field check and the emit gating, applied after a scan that
/// reached the end of the arguments.
pub open spec fn finish(
    st: ScanState,
    pairs: Seq<(Seq<char>, Option<Seq<char>>)>,
) -> CompilerArguments<ParsedView> {
    if st.input is None {
        CompilerArguments::CannotCache(CannotCacheReason::MissingInput)
    } else if st.output_dir is None {
        CompilerArguments::CannotCache(CannotCacheReason::MissingOutputDir)
    } else if st.emit is None {
        CompilerArguments::CannotCache(CannotCacheReason::MissingEmit)
    } else if st.crate_name is None {
        CompilerArguments::CannotCache(CannotCacheReason::MissingCrateName)
    } else {
        let kinds = st.emit->0;
        if kinds.len() > 0 && !contains_str(kinds, "link"@) {
            CompilerArguments::NotCompilation
        } else if exists|i: int|
            0 <= i < kinds.len() && !(#[trigger] kinds[i] == "link"@ || kinds[i] == "dep-info"@) {
            CompilerArguments::CannotCache(CannotCacheReason::UnsupportedEmit)
        } else {
            let crate_name = st.crate_name->0;
            let extra = match st.extra_filename {
                Some(e) => e,
                None => Seq::<char>::empty(),
            };
            CompilerArguments::Cacheable(
                ParsedView {
                    arguments: pairs,
                    output_dir: st.output_dir->0,
                    externs: st.externs.sort_by(str_leq()),
                    crate_name: crate_name,
                    dep_info: if contains_str(kinds, "dep-info"@) {
                        Some(crate_name + extra + ".d"@)
                    } else {
                        None
                    },
                },
            )
        }
    }
}

/// What parsing an argument vector returns, in full.
pub open spec fn parse_spec(args: Seq<Seq<char>>) -> CompilerArguments<ParsedView> {
    let pairs = pairs_of(args, args_with_value_spec());
    match scan(pairs, init_state()) {
        CompilerArguments::Cacheable(st) => finish(st, pairs),
        CompilerArguments::NotCompilation => CompilerArguments::NotCompilation,
        CompilerArguments::CannotCache(r) => CompilerArguments::CannotCache(r),
    }
}

/// The view of a parse result.
pub open spec fn result_view(r: CompilerArguments<ParsedArguments>) -> CompilerArguments<
    ParsedView,
> {
    match r {
        CompilerArguments::Cacheable(p) => CompilerArguments::Cacheable(p@),
        CompilerArguments::NotCompilation => CompilerArguments::NotCompilation,
        CompilerArguments::CannotCache(x) => CompilerArguments::CannotCache(x),
    }
}

/// The scan state as carried by the executable parser.
pub open spec fn state_view(
    emit: Option<Vec<String>>,
    input: Option<String>,
    output_dir: Option<String>,
    crate_name: Option<String>,
    extra_filename: Option<String>,
    externs: Vec<String>,
) -> ScanState {
    ScanState {
        emit: match emit {
            Some(v) => Some(views(v@)),
            None => None,
        },
        input: match input {
            Some(s) => Some(s@),
            None => None,
        },
        output_dir: match output_dir {
            Some(s) => Some(s@),
            None => None,
        },
        crate_name: match crate_name {
            Some(s) => Some(s@),
            None => None,
        },
        extra_filename: match extra_filename {
            Some(s) => Some(s@),
            None => None,
        },
        externs: views(externs@),
    }
}

/// Whether a `--crate-type` value asks for a kind outside the allowed set.
fn crate_type_has_bad(v: &str) -> (r: bool)
    ensures
        r == has_bad_crate_type(v@),
{
    let kinds = str_split(v, ',');
    let ghost kv = split_on(v@, ',');
    let mut k: usize = 0;
    while k < kinds.len()
        invariant
            k <= kinds@.len(),
            kv == split_on(v@, ','),
            kinds@.map_values(|t: String| t@) == kv,
            forall|j: int| 0 <= j < k ==> is_allowed_crate_type(#[trigger] kv[j]),
        decreases kinds@.len() - k,
    {
        let t = &kinds[k];
        if !(str_eq(t.as_str(), "lib") || str_eq(t.as_str(), "rlib") || str_eq(
            t.as_str(),
            "staticlib",
        )) {
            proof {
                assert(kv[k as int] == t@);
                assert(!is_allowed_crate_type(split_on(v@, ',')[k as int]));
            }
            return true;
        }
        k = k + 1;
    }
    proof {
        assert forall|j: int| 0 <= j < split_on(v@, ',').len() implies is_allowed_crate_type(
            #[trigger] split_on(v@, ',')[j],
        ) by {
            assert(split_on(v@, ',')[j] == kv[j]);
        }
    }
    false
}

/// Parses a command line.  The result is exactly `parse_spec` applied to
/// the token views: the same classification, the same reason, and, on
/// success, the same extracted fields.
pub fn parse_arguments(arguments: &Vec<String>) -> (r: CompilerArguments<ParsedArguments>)
    ensures
        result_view(r) == parse_spec(views(arguments@)),
{
    let set = args_with_value();
    let pairs = split_args(arguments, &set);
    let ghost pv = pair_views(pairs@);
    let mut emit: Option<Vec<String>> = None;
    let mut input: Option<String> = None;
    let mut output_dir: Option<String> = None;
    let mut crate_name: Option<String> = None;
    let mut extra_filename: Option<String> = None;
    let mut externs: Vec<String> = Vec::new();
    let mut i: usize = 0;
    proof {
        assert(pv.skip(0) =~~= pv);
        assert(views(externs@) =~~= Seq::<Seq<char>>::empty());
        assert(state_view(emit, input, output_dir, crate_name, extra_filename, externs)
            == init_state());
    }
    while i < pairs.len()
        invariant
            i <= pairs@.len(),
            pv == pair_views(pairs@),
            pv == pairs_of(views(arguments@), args_with_value_spec()),
            scan(pv, init_state()) == scan(
                pv.skip(i as int),
                state_view(emit, input, output_dir, crate_name, extra_filename, externs),
            ),
        decreases pairs@.len() - i,
    {
        let ghost st = state_view(emit, input, output_dir, crate_name, extra_filename, externs);
        let ghost rem = pv.skip(i as int);
        proof {
            assert(rem[0] == pv[i as int]);
            assert(rem.drop_first() =~~= pv.skip(i as int + 1));
        }
        let flag: &String = &pairs[i].0;
        let ghost fv = flag@;
        proof {
            assert(pv[i as int].0 == fv);
        }
        if str_eq(flag.as_str(), "--help") || str_eq(flag.as_str(), "-V") || str_eq(
            flag.as_str(),
            "--version",
        ) || str_eq(flag.as_str(), "--print") || str_eq(flag.as_str(), "--explain") || str_eq(
            flag.as_str(),
            "--pretty",
        ) || str_eq(flag.as_str(), "--unpretty") {
            proof {
                assert(scan(pv.skip(i as int), st) == scan_step(st, pv[i as int]));
            }
            return CompilerArguments::NotCompilation;
        }
        if str_eq(flag.as_str(), "-o") {
            proof {
                assert(scan(pv.skip(i as int), st) == scan_step(st, pv[i as int]));
            }
            return CompilerArguments::CannotCache(CannotCacheReason::OutputToFile);
        }
        if str_eq(flag.as_str(), "-l") {
            proof {
                assert(scan(pv.skip(i as int), st) == scan_step(st, pv[i as int]));
            }
            return CompilerArguments::CannotCache(CannotCacheReason::NativeLibrary);
        }
        if str_eq(flag.as_str(), "--emit") {
            if emit.is_some() {
                proof {
                    assert(scan(pv.skip(i as int), st) == scan_step(st, pv[i as int]));
                }
                return CompilerArguments::CannotCache(CannotCacheReason::MultipleEmit);
            }
            match &pairs[i].1 {
                Some(v) => {
                    let kinds = str_split(v.as_str(), ',');
                    proof {
                        assert(pv[i as int].1 == Some(v@));
                    }
                    emit = Some(kinds);
                },
                None => {
                    proof {
                        assert(pv[i as int].1 is None);
                    }
                    emit = None;
                },
            }
        } else if str_eq(flag.as_str(), "--crate-type") {
            match &pairs[i].1 {
                Some(v) => {
                    proof {
                        assert(pv[i as int].1 == Some(v@));
                    }
                    if crate_type_has_bad(v.as_str()) {
                        proof {
                            assert(scan(pv.skip(i as int), st) == scan_step(st, pv[i as int]));
                        }
                        return CompilerArguments::CannotCache(
                            CannotCacheReason::CrateTypeUnsupported,
                        );
                    }
                },
                None => {
                    proof {
                        assert(pv[i as int].1 is None);
                    }
                },
            }
        } else if str_eq(flag.as_str(), "--out-dir") {
            match &pairs[i].1 {
                Some(v) => {
                    proof {
                        assert(pv[i as int].1 == Some(v@));
                    }
                    output_dir = Some(v.clone());
                },
                None => {
                    proof {
                        assert(pv[i as int].1 is None);
                    }
                    output_dir = None;
                },
            }
        } else if str_eq(flag.as_str(), "--crate-name") {
            match &pairs[i].1 {
                Some(v) => {
                    proof {
                        assert(pv[i as int].1 == Some(v@));
                    }
                    crate_name = Some(v.clone());
                },
                None => {
                    proof {
                        assert(pv[i as int].1 is None);
                    }
                    crate_name = None;
                },
            }
        } else if str_eq(flag.as_str(), "--extern") {
            match &pairs[i].1 {
                Some(v) => {
                    proof {
                        assert(pv[i as int].1 == Some(v@));
                        lemma_first_index_of(v@, '=');
                    }
                    match str_find_char(v.as_str(), '=') {
                        Some(e) => {
                            let l: usize = v.as_str().unicode_len();
                            let path = substr(v.as_str(), e + 1, l);
                            proof {
                                assert(path@ =~= v@.skip(e as int + 1));
                                assert(views(externs@.push(path)) =~~= views(externs@).push(
                                    path@,
                                ));
                            }
                            externs.push(path);
                        },
                        None => {},
                    }
                },
                None => {
                    proof {
                        assert(pv[i as int].1 is None);
                    }
                },
            }
        } else if str_eq(flag.as_str(), "-C") || str_eq(flag.as_str(), "--codegen") {
            match &pairs[i].1 {
                Some(v) => {
                    proof {
                        assert(pv[i as int].1 == Some(v@));
                        lemma_first_index_of(v@, '=');
                    }
                    match str_find_char(v.as_str(), '=') {
                        Some(e) => {
                            let l: usize = v.as_str().unicode_len();
                            let name = substr(v.as_str(), 0, e);
                            if str_eq(name.as_str(), "extra-filename") {
                                let val = substr(v.as_str(), e + 1, l);
                                proof {
                                    assert(name@ =~= v@.take(e as int));
                                    assert(val@ =~= v@.skip(e as int + 1));
                                }
                                extra_filename = Some(val);
                            } else {
                                proof {
                                    assert(name@ =~= v@.take(e as int));
                                }
                            }
                        },
                        None => {},
                    }
                },
                None => {
                    proof {
                        assert(pv[i as int].1 is None);
                    }
                },
            }
        } else if str_eq(flag.as_str(), "-") {
            proof {
                assert(scan(pv.skip(i as int), st) == scan_step(st, pv[i as int]));
            }
            return CompilerArguments::CannotCache(CannotCacheReason::Stdin);
        } else {
            let l: usize = flag.as_str().unicode_len();
            if l == 0 || flag.as_str().get_char(0) != '-' {
                if input.is_some() {
                    proof {
                        assert(scan(pv.skip(i as int), st) == scan_step(st, pv[i as int]));
                    }
                    return CompilerArguments::CannotCache(CannotCacheReason::MultipleInputFiles);
                }
                input = Some(flag.clone());
            }
        }
        proof {
            let st2 = state_view(emit, input, output_dir, crate_name, extra_filename, externs);
            assert(scan_step(st, pv[i as int]) == CompilerArguments::<ScanState>::Cacheable(st2));
            assert(scan(pv.skip(i as int), st) == scan(pv.skip(i as int + 1), st2));
        }
        i = i + 1;
    }
    let ghost st = state_view(emit, input, output_dir, crate_name, extra_filename, externs);
    proof {
        assert(pv.skip(i as int) =~~= Seq::<(Seq<char>, Option<Seq<char>>)>::empty());
        assert(scan(pv, init_state()) == CompilerArguments::<ScanState>::Cacheable(st));
    }
    if input.is_none() {
        return CompilerArguments::CannotCache(CannotCacheReason::MissingInput);
    }
    let output_dir: String = match output_dir {
        Some(s) => s,
        None => {
            return CompilerArguments::CannotCache(CannotCacheReason::MissingOutputDir);
        },
    };
    let kinds: Vec<String> = match emit {
        Some(v) => v,
        None => {
            return CompilerArguments::CannotCache(CannotCacheReason::MissingEmit);
        },
    };
    let crate_name: String = match crate_name {
        Some(s) => s,
        None => {
            return CompilerArguments::CannotCache(CannotCacheReason::MissingCrateName);
        },
    };
    let ghost kv = views(kinds@);
    proof {
        reveal_strlit("link");
        reveal_strlit("dep-info");
        assert("link"@.len() != "dep-info"@.len());
    }
    let mut has_link = false;
    let mut has_dep_info = false;
    let mut bad_kind = false;
    let mut k: usize = 0;
    while k < kinds.len()
        invariant
            k <= kinds@.len(),
            kv == views(kinds@),
            has_link == exists|j: int| 0 <= j < k && kv[j] == "link"@,
            has_dep_info == exists|j: int| 0 <= j < k && kv[j] == "dep-info"@,
            bad_kind == exists|j: int|
                0 <= j < k && !(#[trigger] kv[j] == "link"@ || kv[j] == "dep-info"@),
        decreases kinds@.len() - k,
    {
        let t = &kinds[k];
        proof {
            reveal_strlit("link");
            reveal_strlit("dep-info");
            assert("link"@.len() != "dep-info"@.len());
            assert(kv[k as int] == t@);
        }
        if str_eq(t.as_str(), "link") {
            has_link = true;
        } else if str_eq(t.as_str(), "dep-info") {
            has_dep_info = true;
        } else {
            bad_kind = true;
        }
        k = k + 1;
    }
    proof {
        assert(has_link == contains_str(kv, "link"@));
        assert(has_dep_info == contains_str(kv, "dep-info"@));
    }
    if kinds.len() > 0 && !has_link {
        return CompilerArguments::NotCompilation;
    }
    if bad_kind {
        return CompilerArguments::CannotCache(CannotCacheReason::UnsupportedEmit);
    }
    let dep_info: Option<String> = if has_dep_info {
        let mut d = crate_name.clone();
        match &extra_filename {
            Some(e) => d.append(e.as_str()),
            None => {},
        }
        d.append(".d");
        proof {
            let extra = match st.extra_filename {
                Some(e) => e,
                None => Seq::<char>::empty(),
            };
            assert(d@ =~= crate_name@ + extra + ".d"@);
        }
        Some(d)
    } else {
        None
    };
    let sorted_externs = sort_strings(&externs);
    let parsed = ParsedArguments {
        arguments: pairs,
        output_dir: output_dir,
        externs: sorted_externs,
        crate_name: crate_name,
        dep_info: dep_info,
    };
    proof {
        assert(CompilerArguments::Cacheable(parsed@) == finish(st, pv));
    }
    CompilerArguments::Cacheable(parsed)
}


/// Attached and detached forms yield the same parse: with the flag's
/// value written as `flag=value` or as the two tokens `flag` `value`, the
/// whole invocation parses to the same outcome.
pub proof fn lemma_attached_detached_parse(
    pre: Seq<Seq<char>>,
    f: Seq<char>,
    v: Seq<char>,
    rest: Seq<Seq<char>>,
)
    requires
        closed_args(pre, args_with_value_spec()),
        arg_in_spec(f, args_with_value_spec()),
        crate::strkit::first_index_of(f, '=') is None,
    ensures
        parse_spec(pre + seq![f + seq!['='] + v] + rest) == parse_spec(pre + seq![f, v] + rest),
{
    lemma_attached_detached(pre, f, v, rest, args_with_value_spec());
}

proof fn lemma_scan_keeps_out_dir_none(pairs: Seq<(Seq<char>, Option<Seq<char>>)>, st: ScanState)
    requires
        st.output_dir is None,
        forall|i: int| 0 <= i < pairs.len() ==> (#[trigger] pairs[i]).0 != "--out-dir"@,
    ensures
        scan(pairs, st) matches CompilerArguments::Cacheable(st2) ==> st2.output_dir is None,
    decreases pairs.len(),
{
    if pairs.len() > 0 {
        match scan_step(st, pairs[0]) {
            CompilerArguments::Cacheable(st2) => {
                assert(st2.output_dir is None);
                assert forall|i: int| 0 <= i < pairs.drop_first().len() implies (#[trigger] pairs.drop_first()[i]).0
                    != "--out-dir"@ by {
                    assert(pairs.drop_first()[i] == pairs[i + 1]);
                }
                lemma_scan_keeps_out_dir_none(pairs.drop_first(), st2);
            },
            _ => {},
        }
    }
}

proof fn lemma_scan_keeps_crate_name_none(pairs: Seq<(Seq<char>, Option<Seq<char>>)>, st: ScanState)
    requires
        st.crate_name is None,
        forall|i: int| 0 <= i < pairs.len() ==> (#[trigger] pairs[i]).0 != "--crate-name"@,
    ensures
        scan(pairs, st) matches CompilerArguments::Cacheable(st2) ==> st2.crate_name is None,
    decreases pairs.len(),
{
    if pairs.len() > 0 {
        match scan_step(st, pairs[0]) {
            CompilerArguments::Cacheable(st2) => {
                assert(st2.crate_name is None);
                assert forall|i: int| 0 <= i < pairs.drop_first().len() implies (#[trigger] pairs.drop_first()[i]).0
                    != "--crate-name"@ by {
                    assert(pairs.drop_first()[i] == pairs[i + 1]);
                }
                lemma_scan_keeps_crate_name_none(pairs.drop_first(), st2);
            },
            _ => {},
        }
    }
}

proof fn lemma_scan_keeps_emit_none(pairs: Seq<(Seq<char>, Option<Seq<char>>)>, st: ScanState)
    requires
        st.emit is None,
        forall|i: int| 0 <= i < pairs.len() ==> (#[trigger] pairs[i]).0 != "--emit"@,
    ensures
        scan(pairs, st) matches CompilerArguments::Cacheable(st2) ==> st2.emit is None,
    decreases pairs.len(),
{
    if pairs.len() > 0 {
        match scan_step(st, pairs[0]) {
            CompilerArguments::Cacheable(st2) => {
                assert(st2.emit is None);
                assert forall|i: int| 0 <= i < pairs.drop_first().len() implies (#[trigger] pairs.drop_first()[i]).0
                    != "--emit"@ by {
                    assert(pairs.drop_first()[i] == pairs[i + 1]);
                }
                lemma_scan_keeps_emit_none(pairs.drop_first(), st2);
            },
            _ => {},
        }
    }
}

/// A compilation that omits `--out-dir` is never parsed as cacheable.
pub proof fn lemma_missing_out_dir_rejected(args: Seq<Seq<char>>)
    requires
        forall|i: int|
            0 <= i < pairs_of(args, args_with_value_spec()).len() ==> (#[trigger] pairs_of(
                args,
                args_with_value_spec(),
            )[i]).0 != "--out-dir"@,
    ensures
        !(parse_spec(args) is Cacheable),
        scan(pairs_of(args, args_with_value_spec()), init_state()) is Cacheable ==> parse_spec(
            args,
        ) is CannotCache,
{
    let pairs = pairs_of(args, args_with_value_spec());
    lemma_scan_keeps_out_dir_none(pairs, init_state());
}

/// A compilation that omits `--crate-name` is never parsed as cacheable.
pub proof fn lemma_missing_crate_name_rejected(args: Seq<Seq<char>>)
    requires
        forall|i: int|
            0 <= i < pairs_of(args, args_with_value_spec()).len() ==> (#[trigger] pairs_of(
                args,
                args_with_value_spec(),
            )[i]).0 != "--crate-name"@,
    ensures
        !(parse_spec(args) is Cacheable),
        scan(pairs_of(args, args_with_value_spec()), init_state()) is Cacheable ==> parse_spec(
            args,
        ) is CannotCache,
{
    let pairs = pairs_of(args, args_with_value_spec());
    lemma_scan_keeps_crate_name_none(pairs, init_state());
}

/// A compilation that omits `--emit` is never parsed as cacheable.
pub proof fn lemma_missing_emit_rejected(args: Seq<Seq<char>>)
    requires
        forall|i: int|
            0 <= i < pairs_of(args, args_with_value_spec()).len() ==> (#[trigger] pairs_of(
                args,
                args_with_value_spec(),
            )[i]).0 != "--emit"@,
    ensures
        !(parse_spec(args) is Cacheable),
        scan(pairs_of(args, args_with_value_spec()), init_state()) is Cacheable ==> parse_spec(
            args,
        ) is CannotCache,
{
    let pairs = pairs_of(args, args_with_value_spec());
    lemma_scan_keeps_emit_none(pairs, init_state());
}

/// A `--crate-type` pair asking for a kind outside the allowed set.
pub open spec fn bad_crate_type_pair(p: (Seq<char>, Option<Seq<char>>)) -> bool {
    p.0 == "--crate-type"@ && match p.1 {
        Some(v) => has_bad_crate_type(v),
        None => false,
    }
}

proof fn lemma_scan_bad_crate_type(pairs: Seq<(Seq<char>, Option<Seq<char>>)>, st: ScanState)
    requires
        exists|i: int| 0 <= i < pairs.len() && bad_crate_type_pair(#[trigger] pairs[i]),
    ensures
        !(scan(pairs, st) is Cacheable),
    decreases pairs.len(),
{
    reveal_strlit("--crate-type");
    reveal_strlit("--help");
    reveal_strlit("-V");
    reveal_strlit("--version");
    reveal_strlit("--print");
    reveal_strlit("--explain");
    reveal_strlit("--pretty");
    reveal_strlit("--unpretty");
    reveal_strlit("-o");
    reveal_strlit("-l");
    reveal_strlit("--emit");
    let i = choose|i: int| 0 <= i < pairs.len() && bad_crate_type_pair(#[trigger] pairs[i]);
    if i == 0 {
        let flag = pairs[0].0;
        assert(flag == "--crate-type"@);
        assert(flag != "--help"@ && flag != "-V"@ && flag != "--version"@ && flag != "--print"@
            && flag != "--explain"@ && flag != "--pretty"@ && flag != "--unpretty"@ && flag
            != "-o"@ && flag != "-l"@ && flag != "--emit"@) by {
            assert("--crate-type"@.len() == 12);
            assert("--help"@.len() == 6);
            assert("-V"@.len() == 2);
            assert("--version"@.len() == 9);
            assert("--print"@.len() == 7);
            assert("--explain"@.len() == 9);
            assert("--pretty"@.len() == 8);
            assert("--unpretty"@.len() == 10);
            assert("-o"@.len() == 2);
            assert("-l"@.len() == 2);
            assert("--emit"@.len() == 6);
        }
        assert(scan_step(st, pairs[0]) == CompilerArguments::<ScanState>::CannotCache(
            CannotCacheReason::CrateTypeUnsupported,
        ));
    } else {
        match scan_step(st, pairs[0]) {
            CompilerArguments::Cacheable(st2) => {
                assert(bad_crate_type_pair(pairs.drop_first()[i - 1]));
                lemma_scan_bad_crate_type(pairs.drop_first(), st2);
            },
            _ => {},
        }
    }
}

/// A `--crate-type` whose value names any kind outside `lib`, `rlib`,
/// `staticlib` is never parsed as cacheable.
pub proof fn lemma_bad_crate_type_rejected(args: Seq<Seq<char>>)
    requires
        exists|i: int|
            0 <= i < pairs_of(args, args_with_value_spec()).len() && bad_crate_type_pair(
                #[trigger] pairs_of(args, args_with_value_spec())[i],
            ),
    ensures
        !(parse_spec(args) is Cacheable),
{
    let pairs = pairs_of(args, args_with_value_spec());
    lemma_scan_bad_crate_type(pairs, init_state());
}

/// When the scan completes with every required field recorded and the
/// emit kinds are non-empty without `link`, the invocation is reported as
/// not a compilation.
pub proof fn lemma_emit_without_link(args: Seq<Seq<char>>)
    requires
        scan(pairs_of(args, args_with_value_spec()), init_state()) matches
            CompilerArguments::Cacheable(st) && {
            &&& st.input is Some
            &&& st.output_dir is Some
            &&& st.crate_name is Some
            &&& st.emit matches Some(kinds) && kinds.len() > 0 && !contains_str(kinds, "link"@)
        },
    ensures
        parse_spec(args) == CompilerArguments::<ParsedView>::NotCompilation,
{
}

/// When the scan completes with every required field recorded, the emit
/// gate passed (empty kinds or `link` present), and some kind is neither
/// `link` nor `dep-info`, the reason is the unsupported emit.
pub proof fn lemma_unsupported_emit(args: Seq<Seq<char>>)
    requires
        scan(pairs_of(args, args_with_value_spec()), init_state()) matches
            CompilerArguments::Cacheable(st) && {
            &&& st.input is Some
            &&& st.output_dir is Some
            &&& st.crate_name is Some
            &&& st.emit matches Some(kinds) && (kinds.len() == 0 || contains_str(kinds, "link"@))
                && exists|i: int|
                0 <= i < kinds.len() && !(#[trigger] kinds[i] == "link"@ || kinds[i] == "dep-info"@)
        },
    ensures
        parse_spec(args) == CompilerArguments::<ParsedView>::CannotCache(
            CannotCacheReason::UnsupportedEmit,
        ),
{
}

} // verus!
