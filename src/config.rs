//! The filtering rules of the configuration, and how they sort URLs out.
use crate::engine::{regex_accepts, regex_compiles, CompiledRegex};
use crate::glob::{contains_run, glob_compiles, glob_matches, has_separator, Glob, GlobError};
use vstd::prelude::*;

verus! {

broadcast use vstd::seq_lib::group_seq_properties;

/// A regular expression taken as written, not as a glob.
#[derive(Debug, Clone)]
pub struct MyRegex(CompiledRegex);

impl MyRegex {
    /// The pattern text this regex was built from.
    pub closed spec fn source(&self) -> Seq<char> {
        self.0.pattern()
    }

    /// Builds the regex: it succeeds exactly when the engine accepts `pattern`.
    pub fn new(pattern: &str) -> (r: Result<MyRegex, regex_lite::Error>)
        ensures
            r is Ok <==> regex_compiles(pattern@),
            r matches Ok(m) ==> m.source() == pattern@,
    {
        match CompiledRegex::new(pattern) {
            Ok(re) => Ok(MyRegex(re)),
            Err(e) => Err(e),
        }
    }

    /// The underlying regex.
    pub fn as_ref(&self) -> &regex_lite::Regex {
        self.0.as_regex()
    }

    /// The pattern text this regex was built from.
    pub fn as_str(&self) -> (r: &str)
        ensures
            r@ == self.source(),
    {
        self.0.as_str()
    }

    /// Whether the regex finds a match in `url`.
    pub fn is_match(&self, url: &str) -> (r: bool)
        ensures
            r == regex_accepts(self.source(), url@),
    {
        self.0.is_match(url)
    }
}

/// The URL filtering rules: globs, and raw regular expressions.
#[derive(Debug, Clone)]
pub struct AppConfig {
    pub ignored_urls: Vec<Glob>,
    pub ignored_urls_regex: Vec<MyRegex>,
}

/// Why the rules of a configuration could not be compiled; each case carries
/// the refused rule's text.
#[derive(Debug)]
pub enum ConfigError {
    /// A glob was refused.
    Glob(GlobError),
    /// A raw regular expression, and the engine's error for it.
    Regex(String, regex_lite::Error),
}

impl ConfigError {
    /// The text of the refused rule.
    pub open spec fn rule_text(&self) -> Seq<char> {
        match self {
            ConfigError::Glob(e) => e.glob_text(),
            ConfigError::Regex(p, _) => p@,
        }
    }

    /// A message for the operator, which quotes the refused rule.
    pub fn message(&self) -> (r: String)
        ensures
            contains_run(r@, self.rule_text()),
    {
        match self {
            ConfigError::Glob(e) => e.message(),
            ConfigError::Regex(p, e) => {
                let mut m = "Invalid regex '".to_owned();
                m.append(p.as_str());
                let ghost quoted = m@;
                m.append("': ");
                m.append(e.to_string().as_str());
                proof {
                    let pre = "Invalid regex '"@;
                    assert(m@.subrange(0, quoted.len() as int) =~= quoted);
                    assert(m@.subrange(pre.len() as int, pre.len() + p@.len() as int) =~= p@);
                }
                m
            },
        }
    }
}

/// Whether some glob of `globs` matches `url`.
pub open spec fn some_glob_matches(globs: Seq<Glob>, url: Seq<char>) -> bool {
    exists|i: int| 0 <= i < globs.len() && glob_matches(#[trigger] globs[i].source(), url)
}

/// Whether some regex of `regexes` finds a match in `url`.
pub open spec fn some_regex_matches(regexes: Seq<MyRegex>, url: Seq<char>) -> bool {
    exists|i: int| 0 <= i < regexes.len() && regex_accepts(#[trigger] regexes[i].source(), url)
}

/// A URL is dropped when any glob or any raw regex matches it.
pub open spec fn url_is_ignored(config: AppConfig, url: Seq<char>) -> bool {
    some_glob_matches(config.ignored_urls@, url) || some_regex_matches(
        config.ignored_urls_regex@,
        url,
    )
}

/// The character sequences of a list of strings.
pub open spec fn texts(v: Seq<String>) -> Seq<Seq<char>> {
    v.map_values(|s: String| s@)
}

/// The URLs of `urls` that `config` keeps, in order; all of them without a
/// configuration.
pub open spec fn kept_urls(config: Option<AppConfig>, urls: Seq<Seq<char>>) -> Seq<Seq<char>> {
    match config {
        Some(c) => urls.filter(|u: Seq<char>| !url_is_ignored(c, u)),
        None => urls,
    }
}

impl AppConfig {
    /// Compiles every glob and every raw regex, in order, failing on the first
    /// one refused: no rule is dropped silently.
    pub fn from_patterns(globs: &Vec<String>, regexes: &Vec<String>) -> (r: Result<
        AppConfig,
        ConfigError,
    >)
        ensures
            r is Ok <==> (forall|i: int| 0 <= i < globs@.len() ==> glob_compiles(#[trigger] globs@[i]@))
                && (forall|i: int|
                0 <= i < regexes@.len() ==> regex_compiles(#[trigger] regexes@[i]@)),
            r matches Err(ConfigError::Glob(e)) ==> exists|i: int|
                0 <= i < globs@.len() && #[trigger] globs@[i]@ == e.glob_text() && !glob_compiles(
                    globs@[i]@,
                ) && (e is MissingProtocolSeparator <==> !has_separator(globs@[i]@)) && forall|
                    j: int,
                | 0 <= j < i ==> glob_compiles(#[trigger] globs@[j]@),
            r matches Err(ConfigError::Regex(p, _)) ==> (forall|i: int|
                0 <= i < globs@.len() ==> glob_compiles(#[trigger] globs@[i]@)) && exists|i: int|
                0 <= i < regexes@.len() && #[trigger] regexes@[i]@ == p@ && !regex_compiles(p@)
                    && forall|j: int| 0 <= j < i ==> regex_compiles(#[trigger] regexes@[j]@),
            r matches Ok(c) ==> {
                &&& c.ignored_urls@.len() == globs@.len()
                &&& c.ignored_urls_regex@.len() == regexes@.len()
                &&& forall|i: int|
                    0 <= i < globs@.len() ==> #[trigger] c.ignored_urls@[i].source() == globs@[i]@
                &&& forall|i: int|
                    0 <= i < regexes@.len() ==> #[trigger] c.ignored_urls_regex@[i].source()
                        == regexes@[i]@
            },
    {
        let mut compiled_globs: Vec<Glob> = Vec::new();
        let mut i: usize = 0;
        while i < globs.len()
            invariant
                i <= globs@.len(),
                compiled_globs@.len() == i,
                forall|j: int| 0 <= j < i ==> #[trigger] compiled_globs@[j].source() == globs@[j]@,
                forall|j: int| 0 <= j < i ==> glob_compiles(#[trigger] globs@[j]@),
            decreases globs@.len() - i,
        {
            match Glob::new(globs[i].as_str()) {
                Ok(g) => compiled_globs.push(g),
                Err(e) => {
                    return Err(ConfigError::Glob(e));
                },
            }
            i = i + 1;
        }
        let mut compiled_regexes: Vec<MyRegex> = Vec::new();
        let mut k: usize = 0;
        while k < regexes.len()
            invariant
                k <= regexes@.len(),
                compiled_regexes@.len() == k,
                forall|j: int|
                    0 <= j < k ==> #[trigger] compiled_regexes@[j].source() == regexes@[j]@,
                forall|j: int| 0 <= j < k ==> regex_compiles(#[trigger] regexes@[j]@),
                forall|j: int| 0 <= j < globs@.len() ==> glob_compiles(#[trigger] globs@[j]@),
            decreases regexes@.len() - k,
        {
            match MyRegex::new(regexes[k].as_str()) {
                Ok(re) => compiled_regexes.push(re),
                Err(e) => {
                    return Err(ConfigError::Regex(regexes[k].clone(), e));
                },
            }
            k = k + 1;
        }
        Ok(AppConfig { ignored_urls: compiled_globs, ignored_urls_regex: compiled_regexes })
    }

    /// Whether `url` is dropped: some glob or some raw regex matches it.
    pub fn is_ignored(&self, url: &str) -> (r: bool)
        ensures
            r == url_is_ignored(*self, url@),
    {
        let mut i: usize = 0;
        while i < self.ignored_urls.len()
            invariant
                i <= self.ignored_urls@.len(),
                forall|j: int|
                    0 <= j < i ==> !glob_matches(#[trigger] self.ignored_urls@[j].source(), url@),
            decreases self.ignored_urls@.len() - i,
        {
            if self.ignored_urls[i].is_match(url) {
                return true;
            }
            i = i + 1;
        }
        let mut k: usize = 0;
        while k < self.ignored_urls_regex.len()
            invariant
                k <= self.ignored_urls_regex@.len(),
                !some_glob_matches(self.ignored_urls@, url@),
                forall|j: int|
                    0 <= j < k ==> !regex_accepts(
                        #[trigger] self.ignored_urls_regex@[j].source(),
                        url@,
                    ),
            decreases self.ignored_urls_regex@.len() - k,
        {
            if self.ignored_urls_regex[k].is_match(url) {
                return true;
            }
            k = k + 1;
        }
        false
    }
}

/// The URLs that survive the filtering rules, in their order; without a
/// configuration, all of them.
pub fn filter_args(config: Option<&AppConfig>, args: &Vec<String>) -> (r: Vec<String>)
    ensures
        texts(r@) == kept_urls(
            match config {
                Some(c) => Some(*c),
                None => None,
            },
            texts(args@),
        ),
{
    let ghost all = texts(args@);
    let mut out: Vec<String> = Vec::new();
    let mut i: usize = 0;
    while i < args.len()
        invariant
            i <= args@.len(),
            all == texts(args@),
            texts(out@) == kept_urls(
                match config {
                    Some(c) => Some(*c),
                    None => None,
                },
                all.take(i as int),
            ),
        decreases args@.len() - i,
    {
        let ghost prev = out@;
        let keep = match config {
            Some(c) => !c.is_ignored(args[i].as_str()),
            None => true,
        };
        if keep {
            out.push(args[i].clone());
        }
        proof {
            assert(all.take(i + 1) =~= all.take(i as int).push(all[i as int]));
            if let Some(c) = config {
                all.take(i as int).lemma_filter_push(
                    all[i as int],
                    |u: Seq<char>| !url_is_ignored(*c, u),
                );
            }
            if keep {
                assert(texts(out@) =~= texts(prev).push(args@[i as int]@));
            } else {
                assert(texts(out@) =~= texts(prev));
            }
        }
        i = i + 1;
    }
    assert(all.take(args@.len() as int) =~= all);
    out
}

} // verus!
