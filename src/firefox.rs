//! Which running browser receives the URLs, and with which arguments.
use crate::text::chars_of;
use vstd::prelude::*;

verus! {

/// A running browser: its executable and, when it was started with one, its profile.
#[derive(Debug)]
pub struct FirefoxInfo {
    pub path: String,
    pub profile_name: Option<String>,
}

/// Whether `a` comes before `b` in lexicographic order of code points.
pub open spec fn text_less(a: Seq<char>, b: Seq<char>) -> bool
    decreases a.len(),
{
    if a.len() == 0 {
        b.len() > 0
    } else if b.len() == 0 {
        false
    } else if a[0] != b[0] {
        (a[0] as u32) < (b[0] as u32)
    } else {
        text_less(a.drop_first(), b.drop_first())
    }
}

/// The profile of a browser, as text.
pub open spec fn profile_of(x: FirefoxInfo) -> Option<Seq<char>> {
    match x.profile_name {
        Some(p) => Some(p@),
        None => None,
    }
}

/// Whether browser `x` is preferred to browser `y`: one with a profile comes
/// before one without; two profiles go by name; then the executable paths decide.
pub open spec fn info_precedes(x: FirefoxInfo, y: FirefoxInfo) -> bool {
    match (profile_of(x), profile_of(y)) {
        (Some(a), Some(b)) => text_less(a, b) || (a == b && text_less(x.path@, y.path@)),
        (Some(_), None) => true,
        (None, Some(_)) => false,
        (None, None) => text_less(x.path@, y.path@),
    }
}

/// Whether `s` asks for a profile (`-P` or `-profile`).
pub open spec fn is_profile_flag(s: Seq<char>) -> bool {
    s == "-P"@ || s == "-profile"@
}

/// The first position at or after `from` holding a profile flag, or the length.
pub open spec fn profile_flag_from(cmd: Seq<Seq<char>>, from: int) -> int
    decreases cmd.len() - from,
{
    if from >= cmd.len() {
        cmd.len() as int
    } else if is_profile_flag(cmd[from]) {
        from
    } else {
        profile_flag_from(cmd, from + 1)
    }
}

/// The argument right after the first profile flag, if there is one.
pub open spec fn profile_in(cmd: Seq<Seq<char>>) -> Option<Seq<char>> {
    let k = profile_flag_from(cmd, 0);
    if k + 1 < cmd.len() {
        Some(cmd[k + 1])
    } else {
        None
    }
}

/// `-url u` for each URL `u`, in order.
pub open spec fn url_arguments(urls: Seq<Seq<char>>) -> Seq<Seq<char>>
    decreases urls.len(),
{
    if urls.len() == 0 {
        Seq::empty()
    } else {
        url_arguments(urls.drop_last()) + seq!["-url"@, urls.last()]
    }
}

/// The arguments that open `urls` in a browser, in profile `profile` if given.
pub open spec fn launch_arguments(profile: Option<Seq<char>>, urls: Seq<Seq<char>>) -> Seq<
    Seq<char>,
> {
    match profile {
        Some(p) => seq!["-P"@, p] + url_arguments(urls),
        None => url_arguments(urls),
    }
}

/// The character sequences of a list of strings.
pub open spec fn views_of(v: Seq<String>) -> Seq<Seq<char>> {
    v.map_values(|s: String| s@)
}

/// Whether `a` and `b` agree but for the case of ASCII letters.
pub open spec fn same_ignoring_ascii_case(a: Seq<char>, b: Seq<char>) -> bool {
    &&& a.len() == b.len()
    &&& forall|i: int|
        0 <= i < a.len() ==> {
            let (x, y) = (#[trigger] a[i], b[i]);
            x == y || ('A' <= x <= 'Z' && (y as u32) == (x as u32) + 32) || ('A' <= y <= 'Z' && (x
                as u32) == (y as u32) + 32)
        }
}

/// Whether two characters agree but for the case of an ASCII letter.
fn same_char_ignoring_ascii_case(x: char, y: char) -> (r: bool)
    ensures
        r == (x == y || ('A' <= x <= 'Z' && (y as u32) == (x as u32) + 32) || ('A' <= y <= 'Z' && (x
            as u32) == (y as u32) + 32)),
{
    x == y || ('A' <= x && x <= 'Z' && (y as u32) == (x as u32) + 32) || ('A' <= y && y <= 'Z' && (x
        as u32) == (y as u32) + 32)
}

/// Whether `a` and `b` agree but for the case of ASCII letters.
fn eq_ignoring_ascii_case(a: &str, b: &str) -> (r: bool)
    ensures
        r == same_ignoring_ascii_case(a@, b@),
{
    let x = chars_of(a);
    let y = chars_of(b);
    if x.len() != y.len() {
        return false;
    }
    let mut i: usize = 0;
    while i < x.len()
        invariant
            x@ == a@,
            y@ == b@,
            x@.len() == y@.len(),
            i <= x@.len(),
            forall|j: int|
                0 <= j < i ==> {
                    let (p, q) = (#[trigger] x@[j], y@[j]);
                    p == q || ('A' <= p <= 'Z' && (q as u32) == (p as u32) + 32) || ('A' <= q <= 'Z'
                        && (p as u32) == (q as u32) + 32)
                },
        decreases x@.len() - i,
    {
        if !same_char_ignoring_ascii_case(x[i], y[i]) {
            return false;
        }
        i = i + 1;
    }
    true
}

/// Whether `a` comes before `b` in lexicographic order of code points.
fn text_lt(a: &str, b: &str) -> (r: bool)
    ensures
        r == text_less(a@, b@),
{
    let x = chars_of(a);
    let y = chars_of(b);
    let mut i: usize = 0;
    assert(a@.skip(0) =~= a@ && b@.skip(0) =~= b@);
    while i < x.len() && i < y.len() && x[i] == y[i]
        invariant
            x@ == a@,
            y@ == b@,
            i <= x@.len(),
            i <= y@.len(),
            text_less(a@, b@) == text_less(a@.skip(i as int), b@.skip(i as int)),
        decreases x@.len() - i,
    {
        proof {
            assert(a@.skip(i as int).drop_first() =~= a@.skip(i + 1));
            assert(b@.skip(i as int).drop_first() =~= b@.skip(i + 1));
        }
        i = i + 1;
    }
    if i == x.len() {
        i < y.len()
    } else if i == y.len() {
        false
    } else {
        (x[i] as u32) < (y[i] as u32)
    }
}

/// Whether `a` and `b` hold the same characters.
fn text_eq(a: &str, b: &str) -> (r: bool)
    ensures
        r == (a@ == b@),
{
    let x = chars_of(a);
    let y = chars_of(b);
    if x.len() != y.len() {
        return false;
    }
    let mut i: usize = 0;
    while i < x.len()
        invariant
            x@ == a@,
            y@ == b@,
            x@.len() == y@.len(),
            i <= x@.len(),
            forall|j: int| 0 <= j < i ==> x@[j] == y@[j],
        decreases x@.len() - i,
    {
        if x[i] != y[i] {
            return false;
        }
        i = i + 1;
    }
    assert(x@ =~= y@);
    true
}

/// Whether an executable's file name is the browser's, ignoring ASCII case.
pub fn is_firefox_executable(file_name: &str) -> (r: bool)
    ensures
        r == same_ignoring_ascii_case(file_name@, "firefox.exe"@),
{
    eq_ignoring_ascii_case(file_name, "firefox.exe")
}

/// Whether `s` is a profile flag.
fn is_profile_flag_text(s: &str) -> (r: bool)
    ensures
        r == is_profile_flag(s@),
{
    text_eq(s, "-P") || text_eq(s, "-profile")
}

/// Reads a browser's command line: its first argument is the executable, and
/// the argument after the first profile flag names the profile. An empty
/// command line gives nothing.
pub fn get_firefox_info(cmd: &Vec<String>) -> (r: Option<FirefoxInfo>)
    ensures
        cmd@.len() == 0 <==> r is None,
        r matches Some(info) ==> info.path@ == cmd@[0]@ && profile_of(info) == profile_in(
            views_of(cmd@),
        ),
{
    if cmd.len() == 0 {
        return None;
    }
    let ghost v = views_of(cmd@);
    let mut k: usize = 0;
    while k < cmd.len() && !is_profile_flag_text(cmd[k].as_str())
        invariant
            k <= cmd@.len(),
            v == views_of(cmd@),
            profile_flag_from(v, 0) == profile_flag_from(v, k as int),
        decreases cmd@.len() - k,
    {
        k = k + 1;
    }
    let profile_name = if cmd.len() - k > 1 {
        Some(cmd[k + 1].clone())
    } else {
        None
    };
    Some(FirefoxInfo { path: cmd[0].clone(), profile_name })
}

proof fn lemma_text_less_transitive(a: Seq<char>, b: Seq<char>, c: Seq<char>)
    requires
        text_less(a, b),
        text_less(b, c),
    ensures
        text_less(a, c),
    decreases a.len(),
{
    if a.len() > 0 && b.len() > 0 && c.len() > 0 && a[0] == b[0] && b[0] == c[0] {
        lemma_text_less_transitive(a.drop_first(), b.drop_first(), c.drop_first());
    }
}

proof fn lemma_text_less_irreflexive(a: Seq<char>)
    ensures
        !text_less(a, a),
    decreases a.len(),
{
    if a.len() > 0 {
        lemma_text_less_irreflexive(a.drop_first());
    }
}

proof fn lemma_precedes_transitive(x: FirefoxInfo, y: FirefoxInfo, z: FirefoxInfo)
    requires
        info_precedes(x, y),
        info_precedes(y, z),
    ensures
        info_precedes(x, z),
{
    if text_less(x.path@, y.path@) && text_less(y.path@, z.path@) {
        lemma_text_less_transitive(x.path@, y.path@, z.path@);
    }
    match (profile_of(x), profile_of(y), profile_of(z)) {
        (Some(a), Some(b), Some(c)) => {
            if text_less(a, b) && text_less(b, c) {
                lemma_text_less_transitive(a, b, c);
            }
        },
        _ => {},
    }
}

/// Whether `x` is preferred to `y`, as `info_precedes` orders them.
pub fn precedes(x: &FirefoxInfo, y: &FirefoxInfo) -> (r: bool)
    ensures
        r == info_precedes(*x, *y),
{
    let path_less = text_lt(x.path.as_str(), y.path.as_str());
    match (&x.profile_name, &y.profile_name) {
        (Some(a), Some(b)) => text_lt(a.as_str(), b.as_str()) || (text_eq(a.as_str(), b.as_str())
            && path_less),
        (Some(_), None) => true,
        (None, Some(_)) => false,
        (None, None) => path_less,
    }
}

/// The browser to hand the URLs to: one that no other is preferred to (the
/// first in preference order). Nothing when no browser runs.
pub fn preferred_firefox(infos: &Vec<FirefoxInfo>) -> (r: Option<usize>)
    ensures
        infos@.len() == 0 <==> r is None,
        r matches Some(i) ==> i < infos@.len() && forall|j: int|
            0 <= j < infos@.len() ==> !info_precedes(#[trigger] infos@[j], infos@[i as int]),
{
    if infos.len() == 0 {
        return None;
    }
    let mut best: usize = 0;
    let mut j: usize = 1;
    proof {
        lemma_text_less_irreflexive(infos@[0].path@);
        if let Some(p) = profile_of(infos@[0]) {
            lemma_text_less_irreflexive(p);
        }
    }
    while j < infos.len()
        invariant
            1 <= j <= infos@.len(),
            best < j,
            forall|k: int| 0 <= k < j ==> !info_precedes(#[trigger] infos@[k], infos@[best as int]),
        decreases infos@.len() - j,
    {
        if precedes(&infos[j], &infos[best]) {
            proof {
                assert forall|k: int|
                    0 <= k < j + 1 implies !info_precedes(
                    #[trigger] infos@[k],
                    infos@[j as int],
                ) by {
                    if info_precedes(infos@[k], infos@[j as int]) {
                        lemma_precedes_transitive(infos@[k], infos@[j as int], infos@[best as int]);
                    }
                    if k == j {
                        lemma_text_less_irreflexive(infos@[k].path@);
                        if let Some(p) = profile_of(infos@[k]) {
                            lemma_text_less_irreflexive(p);
                        }
                    }
                }
            }
            best = j;
        }
        j = j + 1;
    }
    Some(best)
}

/// The arguments that open `urls` in the browser: `-P <profile>` when a
/// profile is given, then `-url <u>` for each URL, in order.
pub fn firefox_arguments(profile_name: Option<&String>, urls: &Vec<String>) -> (r: Vec<String>)
    ensures
        views_of(r@) == launch_arguments(
            match profile_name {
                Some(p) => Some(p@),
                None => None,
            },
            views_of(urls@),
        ),
{
    let mut out: Vec<String> = Vec::new();
    if let Some(p) = profile_name {
        out.push("-P".to_owned());
        out.push(p.clone());
    }
    let ghost head = views_of(out@);
    let ghost all = views_of(urls@);
    assert(head == launch_arguments(
        match profile_name {
            Some(p) => Some(p@),
            None => None,
        },
        Seq::empty(),
    ) + Seq::<Seq<char>>::empty()) by {
        assert(url_arguments(Seq::<Seq<char>>::empty()) =~= Seq::<Seq<char>>::empty());
        if let Some(p) = profile_name {
            assert(head =~= seq!["-P"@, p@]);
        } else {
            assert(head =~= Seq::<Seq<char>>::empty());
        }
    }
    let mut i: usize = 0;
    while i < urls.len()
        invariant
            i <= urls@.len(),
            all == views_of(urls@),
            views_of(out@) == head + url_arguments(all.take(i as int)),
        decreases urls@.len() - i,
    {
        let ghost prev = views_of(out@);
        out.push("-url".to_owned());
        out.push(urls[i].clone());
        proof {
            let t = all.take(i as int + 1);
            assert(t.drop_last() =~= all.take(i as int));
            assert(views_of(out@) =~= prev + seq!["-url"@, all[i as int]]);
        }
        i = i + 1;
    }
    proof {
        assert(all.take(urls@.len() as int) =~= all);
        assert(url_arguments(Seq::<Seq<char>>::empty()) =~= Seq::<Seq<char>>::empty());
    }
    out
}

} // verus!
