//! URL globs: a compact, browser-style pattern syntax (`https://*.example.com/**`)
//! compiled into anchored, case-insensitive regular expressions.
//!
//! A `*` matches within one segment (it stops at `.`, `:` and `/`), a `**`
//! matches anything, and after the first `?` of the query a `*` matches
//! anything too. Slashes other than those of the protocol separator are
//! optional, and so is a trailing slash when there is no query.
use crate::engine::{regex_accepts, regex_compiles, CompiledRegex};
use crate::text::{chars_between, chars_of, string_from_chars};
use vstd::prelude::*;

verus! {

// ---------------------------------------------------------------------------
// The pattern language, as sequences of characters
// ---------------------------------------------------------------------------

/// The protocol separator `://`.
pub open spec fn separator() -> Seq<char> {
    seq![':', '/', '/']
}

/// Whether the protocol separator starts at position `i` of `s`.
pub open spec fn separator_at(s: Seq<char>, i: int) -> bool {
    0 <= i && i + 3 <= s.len() && s[i] == ':' && s[i + 1] == '/' && s[i + 2] == '/'
}

/// Whether `s` contains the protocol separator.
pub open spec fn has_separator(s: Seq<char>) -> bool {
    exists|i: int| separator_at(s, i)
}

/// The first position at or after `from` where the separator starts, or the
/// length of `s` if there is none.
pub open spec fn separator_from(s: Seq<char>, from: int) -> int
    decreases s.len() - from,
{
    if from >= s.len() {
        s.len() as int
    } else if separator_at(s, from) {
        from
    } else {
        separator_from(s, from + 1)
    }
}

/// The first position at or after `from` that holds `c`, or the length of `s`
/// if there is none.
pub open spec fn char_from(s: Seq<char>, c: char, from: int) -> int
    decreases s.len() - from,
{
    if from >= s.len() {
        s.len() as int
    } else if s[from] == c {
        from
    } else {
        char_from(s, c, from + 1)
    }
}

/// The position of the first `?` strictly after the protocol index, or the
/// length of the glob when it has no query.
pub open spec fn query_index(g: Seq<char>, protocol_index: int) -> int {
    char_from(g, '?', protocol_index + 1)
}

/// The characters that the regex engine treats as syntax.
pub open spec fn is_meta(c: char) -> bool {
    c == '\\' || c == '.' || c == '+' || c == '*' || c == '?' || c == '(' || c == ')'
        || c == '|' || c == '[' || c == ']' || c == '{' || c == '}' || c == '^' || c == '$'
        || c == '#' || c == '&' || c == '-' || c == '~'
}

/// A character matched literally: escaped when it is syntax.
pub open spec fn literal(c: char) -> Seq<char> {
    if is_meta(c) {
        seq!['\\', c]
    } else {
        seq![c]
    }
}

/// `[^\.:/]*?`: any run of characters within one segment, lazily.
pub open spec fn segment_wildcard() -> Seq<char> {
    seq!['[', '^', '\\', '.', ':', '/', ']', '*', '?']
}

/// `.*?`: any run of characters, lazily.
pub open spec fn any_wildcard() -> Seq<char> {
    seq!['.', '*', '?']
}

/// `/?`: an optional slash.
pub open spec fn optional_slash() -> Seq<char> {
    seq!['/', '?']
}

/// `(?i)^`: case-insensitive, anchored at the start.
pub open spec fn pattern_head() -> Seq<char> {
    seq!['(', '?', 'i', ')', '^']
}

/// Whether position `i` holds one of the slashes of the protocol separator
/// that starts at `protocol_index`.
pub open spec fn in_separator(g: Seq<char>, protocol_index: int, i: int) -> bool {
    separator_at(g, protocol_index) && protocol_index < i <= protocol_index + 2
}

/// Whether the slash at position `i` becomes optional: never for a slash of
/// the protocol separator; otherwise every slash when there is no query, and
/// with a query only the slash right before it.
pub open spec fn slash_is_optional(g: Seq<char>, protocol_index: int, q: int, i: int) -> bool {
    !in_separator(g, protocol_index, i) && (q >= g.len() || i + 1 == q)
}

/// Whether a wildcard pair `**` starts at position `i`.
pub open spec fn double_star_at(g: Seq<char>, i: int) -> bool {
    0 <= i && i + 1 < g.len() && g[i] == '*' && g[i + 1] == '*'
}

/// What the scan emits for the glob `g` from position `i` to its end.
pub open spec fn emit(g: Seq<char>, protocol_index: int, q: int, i: int) -> Seq<char>
    decreases g.len() - i,
{
    if i >= g.len() || i < 0 {
        Seq::empty()
    } else if g[i] == '/' && slash_is_optional(g, protocol_index, q, i) {
        optional_slash() + emit(g, protocol_index, q, i + 1)
    } else if double_star_at(g, i) {
        (if i < protocol_index {
            segment_wildcard()
        } else {
            any_wildcard()
        }) + emit(g, protocol_index, q, i + 2)
    } else if g[i] == '*' {
        (if q < g.len() && i > q {
            any_wildcard()
        } else {
            segment_wildcard()
        }) + emit(g, protocol_index, q, i + 1)
    } else {
        literal(g[i]) + emit(g, protocol_index, q, i + 1)
    }
}

/// Whether `s` ends with an optional slash `/?`.
pub open spec fn ends_with_optional_slash(s: Seq<char>) -> bool {
    s.len() >= 2 && s[s.len() - 2] == '/' && s[s.len() - 1] == '?'
}

/// The regular expression compiled from glob `g` whose protocol separator
/// starts at `protocol_index`.
pub open spec fn compiled_pattern(g: Seq<char>, protocol_index: int) -> Seq<char> {
    let q = query_index(g, protocol_index);
    let body = pattern_head() + emit(g, protocol_index, q, 0);
    let body = if q >= g.len() && !ends_with_optional_slash(body) {
        body + optional_slash()
    } else {
        body
    };
    body.push('$')
}

/// Where the first protocol separator of `s` starts (the length of `s` if none).
pub open spec fn protocol_index_of(s: Seq<char>) -> int {
    separator_from(s, 0)
}

/// The pattern used for candidates that carry a protocol.
pub open spec fn with_protocol_pattern(g: Seq<char>) -> Seq<char> {
    compiled_pattern(g, protocol_index_of(g))
}

/// What follows the first protocol separator of `g`.
pub open spec fn after_separator(g: Seq<char>) -> Seq<char> {
    g.subrange(protocol_index_of(g) + 3, g.len() as int)
}

/// The pattern used for candidates without a protocol.
pub open spec fn without_protocol_pattern(g: Seq<char>) -> Seq<char> {
    compiled_pattern(after_separator(g), 0)
}

/// Whether the glob `g` matches `url`: a candidate with a protocol separator is
/// held to the pattern compiled from the whole glob, any other to the one
/// compiled from what follows the glob's separator.
pub open spec fn glob_matches(g: Seq<char>, url: Seq<char>) -> bool {
    if has_separator(url) {
        regex_accepts(with_protocol_pattern(g), url)
    } else {
        regex_accepts(without_protocol_pattern(g), url)
    }
}

/// The text of the error for a glob without a protocol separator.
pub open spec fn missing_separator_message(g: Seq<char>) -> Seq<char> {
    "Invalid glob '"@ + g + "', missing protocol separator '://'"@
}

/// Whether `part` occurs in `s` as a contiguous run.
pub open spec fn contains_run(s: Seq<char>, part: Seq<char>) -> bool {
    exists|k: int| 0 <= k && k + part.len() <= s.len() && #[trigger] s.subrange(k, k + part.len()) == part
}

// ---------------------------------------------------------------------------
// Lemmas on searching
// ---------------------------------------------------------------------------

proof fn lemma_separator_from(s: Seq<char>, from: int)
    requires
        0 <= from <= s.len(),
    ensures
        from <= separator_from(s, from) <= s.len(),
        separator_from(s, from) < s.len() ==> separator_at(s, separator_from(s, from)),
        forall|j: int| from <= j < separator_from(s, from) ==> !separator_at(s, j),
    decreases s.len() - from,
{
    if from < s.len() && !separator_at(s, from) {
        lemma_separator_from(s, from + 1);
    }
}

/// The first separator is found exactly when there is one.
proof fn lemma_protocol_index(s: Seq<char>)
    ensures
        0 <= protocol_index_of(s) <= s.len(),
        has_separator(s) <==> protocol_index_of(s) < s.len(),
        has_separator(s) ==> separator_at(s, protocol_index_of(s)),
{
    lemma_separator_from(s, 0);
    if has_separator(s) {
        let i = choose|i: int| separator_at(s, i);
        assert(!(protocol_index_of(s) == s.len()) || !separator_at(s, i));
    } else if protocol_index_of(s) < s.len() {
        assert(separator_at(s, protocol_index_of(s)));
    }
}

// ---------------------------------------------------------------------------
// The compiler
// ---------------------------------------------------------------------------

/// Whether `c` must be escaped to be matched literally.
pub fn is_regex_meta_character(c: char) -> (r: bool)
    ensures
        r == is_meta(c),
{
    match c {
        '\\' | '.' | '+' | '*' | '?' | '(' | ')' | '|' | '[' | ']' | '{' | '}' | '^' | '$' | '#'
        | '&' | '-' | '~' => true,
        _ => false,
    }
}

fn push_segment_wildcard(out: &mut Vec<char>)
    ensures
        final(out)@ == old(out)@ + segment_wildcard(),
{
    out.push('[');
    out.push('^');
    out.push('\\');
    out.push('.');
    out.push(':');
    out.push('/');
    out.push(']');
    out.push('*');
    out.push('?');
    assert(out@ =~= old(out)@ + segment_wildcard());
}

fn push_any_wildcard(out: &mut Vec<char>)
    ensures
        final(out)@ == old(out)@ + any_wildcard(),
{
    out.push('.');
    out.push('*');
    out.push('?');
    assert(out@ =~= old(out)@ + any_wildcard());
}

fn push_optional_slash(out: &mut Vec<char>)
    ensures
        final(out)@ == old(out)@ + optional_slash(),
{
    out.push('/');
    out.push('?');
    assert(out@ =~= old(out)@ + optional_slash());
}

/// The first position at or after `from` that holds `c`, or `g.len()`.
fn find_char_from(g: &Vec<char>, c: char, from: usize) -> (r: usize)
    requires
        from <= g@.len(),
    ensures
        r == char_from(g@, c, from as int),
        r <= g@.len(),
{
    let mut j: usize = from;
    while j < g.len() && g[j] != c
        invariant
            from <= j <= g@.len(),
            char_from(g@, c, from as int) == char_from(g@, c, j as int),
        decreases g@.len() - j,
    {
        j = j + 1;
    }
    j
}

/// Where the first protocol separator of `g` starts, or `g.len()`.
fn find_separator(g: &Vec<char>) -> (r: usize)
    ensures
        r == protocol_index_of(g@),
{
    let mut j: usize = 0;
    while j < g.len() && !(g.len() - j >= 3 && g[j] == ':' && g[j + 1] == '/' && g[j + 2] == '/')
        invariant
            j <= g@.len(),
            separator_from(g@, 0) == separator_from(g@, j as int),
        decreases g@.len() - j,
    {
        j = j + 1;
    }
    j
}

/// Compiles the characters of a glob into the characters of its regular
/// expression, the protocol separator starting at `protocol_index`.
fn compile_chars(g: &Vec<char>, protocol_index: usize) -> (r: Vec<char>)
    ensures
        r@ == compiled_pattern(g@, protocol_index as int),
{
    let n = g.len();
    let pi = protocol_index;
    let q = if pi < n {
        find_char_from(g, '?', pi + 1)
    } else {
        n
    };
    assert(q == query_index(g@, pi as int));
    let ghost gs = g@;
    let ghost start = pattern_head() + emit(gs, pi as int, q as int, 0);

    let mut out: Vec<char> = Vec::new();
    out.push('(');
    out.push('?');
    out.push('i');
    out.push(')');
    out.push('^');
    assert(out@ =~= pattern_head());
    let separator_here = n >= 3 && pi <= n - 3 && g[pi] == ':' && g[pi + 1] == '/' && g[pi + 2]
        == '/';
    assert(separator_here == separator_at(gs, pi as int));
    let mut i: usize = 0;
    while i < n
        invariant
            n == g@.len(),
            gs == g@,
            q == query_index(gs, pi as int),
            q <= n,
            i <= n,
            separator_here == separator_at(gs, pi as int),
            out@ + emit(gs, pi as int, q as int, i as int) == start,
        decreases n - i,
    {
        let ghost before = out@;
        let ghost i0 = i;
        let c = g[i];
        let in_sep = separator_here && i > pi && i - pi <= 2;
        let optional = !in_sep && (q >= n || i + 1 == q);
        if c == '/' && optional {
            push_optional_slash(&mut out);
            i = i + 1;
        } else if c == '*' && i + 1 < n && g[i + 1] == '*' {
            if i < pi {
                push_segment_wildcard(&mut out);
            } else {
                push_any_wildcard(&mut out);
            }
            i = i + 2;
        } else if c == '*' {
            if q < n && i > q {
                push_any_wildcard(&mut out);
            } else {
                push_segment_wildcard(&mut out);
            }
            i = i + 1;
        } else {
            if is_regex_meta_character(c) {
                out.push('\\');
            }
            out.push(c);
            i = i + 1;
        }
        assert(out@ + emit(gs, pi as int, q as int, i as int) =~= before + emit(
            gs,
            pi as int,
            q as int,
            i0 as int,
        ));
    }
    assert(emit(gs, pi as int, q as int, n as int) =~= Seq::<char>::empty());
    assert(out@ =~= start);
    let len = out.len();
    if q >= n && !(len >= 2 && out[len - 2] == '/' && out[len - 1] == '?') {
        push_optional_slash(&mut out);
    }
    out.push('$');
    out
}

/// The text of the regular expression compiled from `glob`, its protocol
/// separator starting at character `protocol_index` (0 for a glob that
/// follows a separator).
pub fn glob_to_pattern(glob: &str, protocol_index: usize) -> (r: String)
    ensures
        r@ == compiled_pattern(glob@, protocol_index as int),
{
    let g = chars_of(glob);
    let p = compile_chars(&g, protocol_index);
    string_from_chars(&p)
}

/// Compiles `glob` into a regex whose pattern is `glob_to_pattern`'s text: it
/// succeeds exactly when the engine accepts that text.
pub fn glob_to_regex(glob: &str, protocol_index: usize) -> (r: Result<
    CompiledRegex,
    regex_lite::Error,
>)
    ensures
        r is Ok <==> regex_compiles(compiled_pattern(glob@, protocol_index as int)),
        r matches Ok(re) ==> re.pattern() == compiled_pattern(glob@, protocol_index as int),
{
    let pattern = glob_to_pattern(glob, protocol_index);
    CompiledRegex::new(pattern.as_str())
}

/// Whether `g` compiles: it holds a protocol separator and the engine accepts
/// both of its patterns.
pub open spec fn glob_compiles(g: Seq<char>) -> bool {
    &&& has_separator(g)
    &&& regex_compiles(with_protocol_pattern(g))
    &&& regex_compiles(without_protocol_pattern(g))
}

/// Why a glob could not be compiled; each case carries the glob.
#[derive(Debug)]
pub enum GlobError {
    /// The glob, which holds no `://`.
    MissingProtocolSeparator(String),
    /// The glob, one of whose compiled patterns the regex engine refused, and
    /// the engine's error.
    InvalidPattern(String, regex_lite::Error),
}

/// Whether `s` starts with `prefix` followed by `g`.
pub open spec fn quotes_after(s: Seq<char>, prefix: Seq<char>, g: Seq<char>) -> bool {
    s.len() >= prefix.len() + g.len() && s.subrange(0, prefix.len() as int) == prefix && s.subrange(
        prefix.len() as int,
        (prefix.len() + g.len()) as int,
    ) == g
}

proof fn lemma_quotes_contains(s: Seq<char>, prefix: Seq<char>, g: Seq<char>)
    requires
        quotes_after(s, prefix, g),
    ensures
        contains_run(s, g),
{
    assert(s.subrange(prefix.len() as int, prefix.len() + g.len() as int) == g);
}

impl GlobError {
    /// The glob that was refused.
    pub open spec fn glob_text(&self) -> Seq<char> {
        match self {
            GlobError::MissingProtocolSeparator(g) => g@,
            GlobError::InvalidPattern(g, _) => g@,
        }
    }

    /// A message for the operator. It always quotes the glob; for a missing
    /// separator it also names the missing `://`.
    pub fn message(&self) -> (r: String)
        ensures
            contains_run(r@, self.glob_text()),
            self matches GlobError::MissingProtocolSeparator(g) ==> {
                &&& r@ == missing_separator_message(g@)
                &&& contains_run(r@, separator())
            },
    {
        proof {
            if let GlobError::MissingProtocolSeparator(g) = self {
                lemma_message_quotes(g@);
            }
        }
        match self {
            GlobError::MissingProtocolSeparator(g) => {
                let mut m = "Invalid glob '".to_owned();
                m.append(g.as_str());
                m.append("', missing protocol separator '://'");
                m
            },
            GlobError::InvalidPattern(g, e) => {
                let mut m = "Invalid glob '".to_owned();
                m.append(g.as_str());
                let ghost quoted = m@;
                m.append("': ");
                m.append(e.to_string().as_str());
                assert(m@.subrange(0, quoted.len() as int) =~= quoted);
                proof {
                    let p = "Invalid glob '"@;
                    assert(m@.subrange(0, p.len() as int) =~= p);
                    assert(m@.subrange(p.len() as int, p.len() + g@.len() as int) =~= g@);
                    lemma_quotes_contains(m@, p, g@);
                }
                m
            },
        }
    }
}

/// A URL glob, compiled twice: once whole, for candidates with a protocol,
/// and once from what follows its protocol separator, for bare candidates.
#[derive(Debug)]
pub struct Glob {
    with_protocol: CompiledRegex,
    without_protocol: CompiledRegex,
    source: String,
}

impl Clone for Glob {
    fn clone(&self) -> (r: Self)
        ensures
            r.source() == self.source(),
    {
        proof {
            use_type_invariant(self);
        }
        Glob {
            with_protocol: self.with_protocol.clone(),
            without_protocol: self.without_protocol.clone(),
            source: self.source.clone(),
        }
    }
}

impl Glob {
    #[verifier::type_invariant]
    spec fn well_formed(&self) -> bool {
        &&& has_separator(self.source@)
        &&& self.with_protocol.pattern() == with_protocol_pattern(self.source@)
        &&& self.without_protocol.pattern() == without_protocol_pattern(self.source@)
    }

    /// The glob text this was compiled from.
    pub closed spec fn source(&self) -> Seq<char> {
        self.source@
    }

    /// Compiles `glob`. It succeeds exactly when the glob holds `://` and the
    /// engine accepts both compiled patterns; it fails with
    /// `MissingProtocolSeparator` exactly when the glob holds no `://`.
    pub fn new(glob: &str) -> (r: Result<Glob, GlobError>)
        ensures
            r is Ok <==> glob_compiles(glob@),
            !has_separator(glob@) <==> r is Err && r->Err_0 is MissingProtocolSeparator,
            r matches Err(e) ==> e.glob_text() == glob@,
            r matches Ok(m) ==> m.source() == glob@,
    {
        build_glob(glob)
    }

    /// Whether `url` matches the glob: a candidate holding `://` is held to the
    /// whole glob, any other to the part of the glob after its separator. The
    /// match must cover the whole candidate.
    pub fn is_match(&self, url: &str) -> (r: bool)
        ensures
            r == glob_matches(self.source(), url@),
    {
        proof {
            use_type_invariant(self);
        }
        let u = chars_of(url);
        let k = find_separator(&u);
        proof {
            lemma_protocol_index(u@);
        }
        if k < u.len() {
            self.with_protocol.is_match(url)
        } else {
            self.without_protocol.is_match(url)
        }
    }
}

fn build_glob(glob: &str) -> (r: Result<Glob, GlobError>)
    ensures
        r is Ok <==> glob_compiles(glob@),
        !has_separator(glob@) <==> r is Err && r->Err_0 is MissingProtocolSeparator,
        r matches Err(e) ==> e.glob_text() == glob@,
        r matches Ok(m) ==> m.source() == glob@,
{
    let g = chars_of(glob);
    let pi = find_separator(&g);
    proof {
        lemma_protocol_index(g@);
    }
    if pi >= g.len() {
        return Err(GlobError::MissingProtocolSeparator(glob.to_owned()));
    }
    let tail_chars = chars_between(&g, pi + 3, g.len());
    let tail = string_from_chars(&tail_chars);
    let with_protocol = match glob_to_regex(glob, pi) {
        Ok(re) => re,
        Err(e) => return Err(GlobError::InvalidPattern(glob.to_owned(), e)),
    };
    let without_protocol = match glob_to_regex(tail.as_str(), 0) {
        Ok(re) => re,
        Err(e) => return Err(GlobError::InvalidPattern(glob.to_owned(), e)),
    };
    proof {
        assert(tail_chars@ == after_separator(glob@));
    }
    Ok(Glob { with_protocol, without_protocol, source: glob.to_owned() })
}

/// Whether the only unescaped `$` of `s` is its last character: every other
/// `$` directly follows a `\`.
pub open spec fn single_end_anchor(s: Seq<char>) -> bool {
    &&& s.len() > 0
    &&& s.last() == '$'
    &&& forall|k: int| 0 <= k < s.len() - 1 && #[trigger] s[k] == '$' ==> k > 0 && s[k - 1] == '\\'
}

/// Every `$` that the scan emits follows a `\`.
proof fn lemma_emit_escapes_dollar(g: Seq<char>, protocol_index: int, q: int, i: int)
    ensures
        forall|k: int|
            0 <= k < emit(g, protocol_index, q, i).len() && #[trigger] emit(
                g,
                protocol_index,
                q,
                i,
            )[k] == '$' ==> k > 0 && emit(g, protocol_index, q, i)[k - 1] == '\\',
    decreases g.len() - i,
{
    if i >= g.len() || i < 0 {
    } else {
        let next = if !(g[i] == '/' && slash_is_optional(g, protocol_index, q, i)) && double_star_at(g, i) {
            i + 2
        } else {
            i + 1
        };
        lemma_emit_escapes_dollar(g, protocol_index, q, next);
        let e = emit(g, protocol_index, q, i);
        let rest = emit(g, protocol_index, q, next);
        let piece = e.subrange(0, e.len() - rest.len());
        assert(e =~= piece + rest);
        assert forall|k: int| 0 <= k < e.len() && #[trigger] e[k] == '$' implies k > 0 && e[k - 1] == '\\' by {
            if k >= piece.len() {
                assert(rest[k - piece.len()] == '$');
            }
        }
    }
}

proof fn lemma_char_from_push(g: Seq<char>, c: char, x: char, from: int)
    requires
        0 <= from,
        char_from(g, c, from) == g.len(),
        x != c,
    ensures
        char_from(g.push(x), c, from) == g.len() + 1,
    decreases g.len() + 1 - from,
{
    let h = g.push(x);
    if from < g.len() {
        assert(h[from] == g[from]);
        lemma_char_from_push(g, c, x, from + 1);
    } else if from == g.len() {
        assert(h[from] == x);
        assert(char_from(h, c, from + 1) == h.len());
    }
}

proof fn lemma_separator_from_push(g: Seq<char>, x: char, from: int)
    requires
        0 <= from <= separator_from(g, from) < g.len(),
    ensures
        separator_from(g.push(x), from) == separator_from(g, from),
    decreases g.len() - from,
{
    lemma_separator_from(g, from);
    if !separator_at(g, from) {
        assert(!separator_at(g.push(x), from));
        lemma_separator_from_push(g, x, from + 1);
    } else {
        assert(separator_at(g.push(x), from));
    }
}

/// The search for `c` from `from` runs off the end exactly when no position
/// from there on holds `c`.
proof fn lemma_char_from_none(s: Seq<char>, c: char, from: int)
    requires
        0 <= from,
    ensures
        (char_from(s, c, from) == s.len()) <==> (forall|j: int| from <= j < s.len() ==> s[j] != c),
    decreases s.len() - from,
{
    if from < s.len() {
        lemma_char_from_none(s, c, from + 1);
    }
}

/// With no query, appending a slash past the protocol separator appends an
/// optional slash to what the scan emits.
proof fn lemma_emit_push_slash(g: Seq<char>, protocol_index: int, i: int)
    requires
        0 <= protocol_index,
        g.len() > 0,
        g.last() != '/',
        0 <= i <= g.len(),
    ensures
        emit(g.push('/'), protocol_index, g.len() + 1 as int, i) == emit(g, protocol_index, g.len() as int, i)
            + optional_slash(),
    decreases g.len() - i,
{
    let h = g.push('/');
    let n = g.len() as int;
    if i == n {
        assert(!in_separator(h, protocol_index, n)) by {
            if separator_at(h, protocol_index) && protocol_index < n <= protocol_index + 2 {
                assert(h[n - 1] == g.last());
            }
        }
        assert(emit(h, protocol_index, n + 1, n + 1) =~= Seq::<char>::empty());
        assert(emit(h, protocol_index, n + 1, n) =~= optional_slash());
        assert(emit(g, protocol_index, n, n) =~= Seq::<char>::empty());
    } else {
        assert(h[i] == g[i]);
        assert(double_star_at(h, i) == double_star_at(g, i));
        assert(g[i] == '/' ==> in_separator(h, protocol_index, i) == in_separator(g, protocol_index, i)) by {
            if g[i] == '/' && separator_at(h, protocol_index) && protocol_index < i <= protocol_index + 2 {
                assert(i != n - 1);
                assert(h[protocol_index + 2] == g[protocol_index + 2]);
            }
        }
        if i + 2 <= n {
            lemma_emit_push_slash(g, protocol_index, i + 2);
        }
        lemma_emit_push_slash(g, protocol_index, i + 1);
        let e = emit(g, protocol_index, n, i);
        let f = emit(h, protocol_index, n + 1, i);
        assert(f =~= e + optional_slash());
    }
}

/// What the scan emits ends with an optional slash only if the glob ends with a slash.
proof fn lemma_emit_end(g: Seq<char>, protocol_index: int, q: int, i: int)
    requires
        0 <= i < g.len(),
    ensures
        emit(g, protocol_index, q, i).len() > 0,
        emit(g, protocol_index, q, i).len() == 1 ==> emit(g, protocol_index, q, i)[0] != '?',
        ends_with_optional_slash(emit(g, protocol_index, q, i)) ==> g.last() == '/',
    decreases g.len() - i,
{
    let e = emit(g, protocol_index, q, i);
    let next = if !(g[i] == '/' && slash_is_optional(g, protocol_index, q, i)) && double_star_at(g, i) {
        i + 2
    } else {
        i + 1
    };
    let rest = emit(g, protocol_index, q, next);
    if next < g.len() {
        lemma_emit_end(g, protocol_index, q, next);
        assert(e.last() == rest.last());
        if rest.len() >= 2 {
            assert(e[e.len() - 2] == rest[rest.len() - 2]);
        }
    } else {
        assert(rest =~= Seq::<char>::empty());
    }
}

/// With no query after the separator and no slash at its end, the glob
/// compiles as it does with a trailing slash.
proof fn lemma_compiled_push_slash(g: Seq<char>, protocol_index: int)
    requires
        0 <= protocol_index,
        g.len() > 0,
        query_index(g, protocol_index) == g.len(),
        g.last() != '/',
    ensures
        compiled_pattern(g.push('/'), protocol_index) == compiled_pattern(g, protocol_index),
{
    let h = g.push('/');
    lemma_char_from_push(g, '?', '/', protocol_index + 1);
    lemma_emit_push_slash(g, protocol_index, 0);
    lemma_emit_end(g, protocol_index, g.len() as int, 0);
    let e = emit(g, protocol_index, g.len() as int, 0);
    let body = pattern_head() + e;
    assert(!ends_with_optional_slash(body)) by {
        if e.len() >= 2 {
            assert(body[body.len() - 2] == e[e.len() - 2]);
        }
    }
    let body_h = pattern_head() + emit(h, protocol_index, h.len() as int, 0);
    assert(body_h =~= body + optional_slash());
}

// ---------------------------------------------------------------------------
// Laws
// ---------------------------------------------------------------------------

/// A glob without a protocol separator is refused (`Glob::new` returns
/// `MissingProtocolSeparator` with the glob), and the error's message quotes
/// the glob and names the missing `://`.
pub proof fn missing_separator_message_names_glob(g: Seq<char>)
    requires
        !has_separator(g),
    ensures
        contains_run(missing_separator_message(g), g),
        contains_run(missing_separator_message(g), separator()),
{
    lemma_message_quotes(g);
}

proof fn lemma_message_quotes(g: Seq<char>)
    ensures
        contains_run(missing_separator_message(g), g),
        contains_run(missing_separator_message(g), separator()),
{
    reveal_strlit("Invalid glob '");
    reveal_strlit("', missing protocol separator '://'");
    let m = missing_separator_message(g);
    let n = g.len() as int;
    assert(m.subrange(14, 14 + n) =~= g);
    let k = 14 + n + 31;
    assert(m.subrange(k, k + separator().len()) =~= separator());
}

/// With no query, a glob and the same glob with a trailing slash match the same
/// candidates: both compile to the same patterns.
pub proof fn trailing_slash_is_optional(g: Seq<char>, url: Seq<char>)
    requires
        has_separator(g),
        query_index(g, protocol_index_of(g)) == g.len(),
        g.last() != '/',
    ensures
        with_protocol_pattern(g.push('/')) == with_protocol_pattern(g),
        without_protocol_pattern(g.push('/')) == without_protocol_pattern(g),
        glob_matches(g.push('/'), url) == glob_matches(g, url),
{
    let h = g.push('/');
    let pi = protocol_index_of(g);
    lemma_protocol_index(g);
    lemma_separator_from_push(g, '/', 0);
    assert(g.len() > pi + 3) by {
        if g.len() == pi + 3 {
            assert(g.last() == g[pi + 2]);
        }
    }
    lemma_compiled_push_slash(g, pi);
    let t = after_separator(g);
    assert(t.len() > 0 && t.last() == g.last());
    assert(after_separator(h) =~= t.push('/'));
    assert(query_index(t, 0) == t.len()) by {
        lemma_char_from_none(g, '?', pi + 1);
        assert forall|j: int| 1 <= j < t.len() implies t[j] != '?' by {
            assert(t[j] == g[pi + 3 + j]);
        }
        lemma_char_from_none(t, '?', 1);
    }
    lemma_compiled_push_slash(t, 0);
}

/// Both patterns of a glob are anchored at the start and ask the engine to
/// ignore case.
pub proof fn compiled_patterns_ignore_case(g: Seq<char>)
    ensures
        with_protocol_pattern(g).subrange(0, 5) == pattern_head(),
        without_protocol_pattern(g).subrange(0, 5) == pattern_head(),
{
    assert(with_protocol_pattern(g).subrange(0, 5) =~= pattern_head());
    assert(without_protocol_pattern(g).subrange(0, 5) =~= pattern_head());
}

/// A compiled pattern holds one end anchor, its last character; any other `$`
/// in it is an escaped literal.
pub proof fn compiled_pattern_has_single_end_anchor(g: Seq<char>, protocol_index: int)
    ensures
        single_end_anchor(compiled_pattern(g, protocol_index)),
{
    let q = query_index(g, protocol_index);
    let e = emit(g, protocol_index, q, 0);
    lemma_emit_escapes_dollar(g, protocol_index, q, 0);
    let body = pattern_head() + e;
    let full = if q >= g.len() && !ends_with_optional_slash(body) {
        body + optional_slash()
    } else {
        body
    };
    let p = compiled_pattern(g, protocol_index);
    assert(p == full.push('$'));
    assert forall|k: int| 0 <= k < p.len() - 1 && #[trigger] p[k] == '$' implies k > 0 && p[k - 1] == '\\' by {
        assert(p[k] == full[k]);
        if k < 5 {
            assert(pattern_head()[k] == p[k]);
        } else if k < 5 + e.len() {
            assert(e[k - 5] == '$');
            assert(p[k - 1] == body[k - 1]);
        } else {
            assert(full[k] == optional_slash()[k - 5 - e.len()]);
        }
    }
}

} // verus!
