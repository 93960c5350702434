//! Where Hermes lives on disk: the home directory, profile directories and the
//! executables the desktop runs. Paths are text joined as `PathBuf::push` joins
//! them on POSIX; which candidate exists on disk is asked of a probe.
use vstd::prelude::*;
use crate::text::{chars_of, push_all, push_str, string_of};

verus! {

/// `base.join(comp)`: an absolute component replaces the base; otherwise the
/// component follows the base, with a `/` between them unless the base is
/// empty or already ends with one.
pub open spec fn path_join(base: Seq<char>, comp: Seq<char>) -> Seq<char> {
    if comp.len() > 0 && comp[0] == '/' {
        comp
    } else if base.len() == 0 || base.last() == '/' {
        base + comp
    } else {
        base + seq!['/'] + comp
    }
}

/// `base.join(c0).join(c1)...`.
pub open spec fn path_join_all(base: Seq<char>, comps: Seq<Seq<char>>) -> Seq<char>
    decreases comps.len(),
{
    if comps.len() == 0 {
        base
    } else {
        path_join(path_join_all(base, comps.drop_last()), comps.last())
    }
}

/// `Path::new(base).join(comp)` as a `String`.
pub fn join_path(base: &str, comp: &str) -> (r: String)
    ensures
        r@ == path_join(base@, comp@),
{
    let b = chars_of(base);
    let c = chars_of(comp);
    if c.len() > 0 && c[0] == '/' {
        return string_of(c.as_slice());
    }
    let mut v = b;
    if v.len() > 0 && v[v.len() - 1] != '/' {
        v.push('/');
    }
    push_all(&mut v, &c);
    string_of(v.as_slice())
}

pub(crate) fn join2(base: &str, a: &str, b: &str) -> (r: String)
    ensures
        r@ == path_join(path_join(base@, a@), b@),
{
    let x = join_path(base, a);
    join_path(x.as_str(), b)
}

pub(crate) fn join3(base: &str, a: &str, b: &str, c: &str) -> (r: String)
    ensures
        r@ == path_join(path_join(path_join(base@, a@), b@), c@),
{
    let x = join2(base, a, b);
    join_path(x.as_str(), c)
}

pub(crate) fn join4(base: &str, a: &str, b: &str, c: &str, d: &str) -> (r: String)
    ensures
        r@ == path_join(path_join(path_join(path_join(base@, a@), b@), c@), d@),
{
    let x = join3(base, a, b, c);
    join_path(x.as_str(), d)
}

// ───────────────────────── the home directory ─────────────────────────

/// `HERMES_HOME` when set, else `$HOME/.hermes` (`/tmp/.hermes` without `HOME`).
pub open spec fn hermes_home_of(hermes_home_var: Option<Seq<char>>, home_var: Option<Seq<char>>) -> Seq<
    char,
> {
    match hermes_home_var {
        Some(h) => h,
        None => match home_var {
            Some(b) => path_join(b, ".hermes"@),
            None => path_join("/tmp"@, ".hermes"@),
        },
    }
}

pub open spec fn opt_view(o: Option<&str>) -> Option<Seq<char>> {
    match o {
        Some(s) => Some(s@),
        None => None,
    }
}

/// The Hermes home on POSIX systems, from the values of `HERMES_HOME` and `HOME`.
pub fn resolve_hermes_home(hermes_home_var: Option<&str>, home_var: Option<&str>) -> (r: String)
    ensures
        r@ == hermes_home_of(opt_view(hermes_home_var), opt_view(home_var)),
{
    match hermes_home_var {
        Some(h) => {
            let v = chars_of(h);
            string_of(v.as_slice())
        },
        None => match home_var {
            Some(b) => join_path(b, ".hermes"),
            None => join_path("/tmp", ".hermes"),
        },
    }
}

/// The directory of a profile: `profiles/<name>` under the Hermes home, or the
/// home itself for the default profile.
pub open spec fn profile_home(hermes_home: Seq<char>, profile: Option<Seq<char>>) -> Seq<char> {
    match profile {
        Some(name) => path_join(path_join(hermes_home, "profiles"@), name),
        None => hermes_home,
    }
}

pub fn resolve_profile_home(hermes_home: &str, profile: Option<&str>) -> (r: String)
    ensures
        r@ == profile_home(hermes_home@, opt_view(profile)),
{
    match profile {
        Some(name) => join2(hermes_home, "profiles", name),
        None => {
            let v = chars_of(hermes_home);
            string_of(v.as_slice())
        },
    }
}

// ───────────────────────── probing candidates ─────────────────────────

/// The probe was asked about `path` and answered `answer`.
pub open spec fn probed<E: Fn(String) -> bool>(probe: E, path: Seq<char>, answer: bool) -> bool {
    exists|s: String|
        #![trigger call_ensures(probe, (s,), answer)]
        s@ == path && call_ensures(probe, (s,), answer)
}

pub open spec fn probe_ready<E: Fn(String) -> bool>(probe: E) -> bool {
    forall|s: String| call_requires(probe, (s,))
}

/// `r` is the first candidate the probe found, or `fallback` when it found none.
pub open spec fn first_found<E: Fn(String) -> bool>(
    probe: E,
    cands: Seq<Seq<char>>,
    fallback: Seq<char>,
    r: Seq<char>,
) -> bool {
    ||| exists|i: int|
        0 <= i < cands.len() && r == cands[i] && probed(probe, cands[i], true) && forall|j: int|
            0 <= j < i ==> probed(probe, cands[j], false)
    ||| r == fallback && forall|j: int| 0 <= j < cands.len() ==> probed(probe, cands[j], false)
}

pub(crate) fn first_existing<E: Fn(String) -> bool>(cands: Vec<String>, fallback: String, probe: &E) -> (r:
    String)
    requires
        probe_ready(*probe),
    ensures
        first_found(*probe, cands@.map_values(|c: String| c@), fallback@, r@),
{
    let ghost cs = cands@.map_values(|c: String| c@);
    let mut i: usize = 0;
    while i < cands.len()
        invariant
            i <= cands.len(),
            probe_ready(*probe),
            cs == cands@.map_values(|c: String| c@),
            forall|j: int| 0 <= j < i ==> probed(*probe, cs[j], false),
        decreases cands.len() - i,
    {
        let c = cands[i].clone();
        let ghost cv = c@;
        assert(cv == cs[i as int]);
        let found = probe(c);
        if found {
            let r = cands[i].clone();
            assert(probed(*probe, cs[i as int], true));
            return r;
        }
        assert(probed(*probe, cs[i as int], false));
        i += 1;
    }
    fallback
}

// ───────────────────────── executables ─────────────────────────

/// Where the Python interpreter of the Hermes virtualenv may be, in the order tried.
pub open spec fn python_candidates(home: Seq<char>, windows: bool) -> Seq<Seq<char>> {
    let venv = path_join(path_join(home, "hermes-agent"@), "venv"@);
    if windows {
        seq![path_join(path_join(venv, "Scripts"@), "python.exe"@)]
    } else {
        seq![
            path_join(path_join(venv, "bin"@), "python3"@),
            path_join(path_join(venv, "bin"@), "python"@),
        ]
    }
}

/// The legacy virtualenv's interpreter, used when no candidate exists.
pub open spec fn python_fallback(home: Seq<char>, windows: bool) -> Seq<char> {
    let venv = path_join(home, "venv"@);
    if windows {
        path_join(path_join(venv, "Scripts"@), "python.exe"@)
    } else {
        path_join(path_join(venv, "bin"@), "python3"@)
    }
}

pub fn resolve_python<E: Fn(String) -> bool>(hermes_home: &str, windows: bool, probe: &E) -> (r:
    String)
    requires
        probe_ready(*probe),
    ensures
        first_found(
            *probe,
            python_candidates(hermes_home@, windows),
            python_fallback(hermes_home@, windows),
            r@,
        ),
{
    let mut cands: Vec<String> = Vec::new();
    if windows {
        cands.push(join4(hermes_home, "hermes-agent", "venv", "Scripts", "python.exe"));
        let fb = join3(hermes_home, "venv", "Scripts", "python.exe");
        assert(cands@.map_values(|c: String| c@) =~= python_candidates(hermes_home@, windows));
        first_existing(cands, fb, probe)
    } else {
        cands.push(join4(hermes_home, "hermes-agent", "venv", "bin", "python3"));
        cands.push(join4(hermes_home, "hermes-agent", "venv", "bin", "python"));
        let fb = join3(hermes_home, "venv", "bin", "python3");
        assert(cands@.map_values(|c: String| c@) =~= python_candidates(hermes_home@, windows));
        first_existing(cands, fb, probe)
    }
}

/// Where the Hermes entry script may be, in the order tried.
pub open spec fn script_candidates(home: Seq<char>, windows: bool) -> Seq<Seq<char>> {
    let repo = path_join(home, "hermes-agent"@);
    if windows {
        seq![path_join(path_join(path_join(repo, "venv"@), "Scripts"@), "hermes.exe"@)]
    } else {
        seq![
            path_join(repo, "hermes"@),
            path_join(path_join(path_join(repo, "venv"@), "bin"@), "hermes"@),
        ]
    }
}

pub fn resolve_hermes_script<E: Fn(String) -> bool>(hermes_home: &str, windows: bool, probe: &E) -> (r:
    String)
    requires
        probe_ready(*probe),
    ensures
        first_found(
            *probe,
            script_candidates(hermes_home@, windows),
            path_join(hermes_home@, "hermes"@),
            r@,
        ),
{
    let mut cands: Vec<String> = Vec::new();
    if windows {
        cands.push(join4(hermes_home, "hermes-agent", "venv", "Scripts", "hermes.exe"));
    } else {
        cands.push(join2(hermes_home, "hermes-agent", "hermes"));
        cands.push(join4(hermes_home, "hermes-agent", "venv", "bin", "hermes"));
    }
    let fb = join_path(hermes_home, "hermes");
    assert(cands@.map_values(|c: String| c@) =~= script_candidates(hermes_home@, windows));
    first_existing(cands, fb, probe)
}

/// The bundled Git for Windows binaries, in the order tried.
pub open spec fn git_candidates(home: Seq<char>) -> Seq<Seq<char>> {
    let h = path_join(home, "git"@);
    seq![
        path_join(path_join(h, "bin"@), "git.exe"@),
        path_join(path_join(h, "cmd"@), "git.exe"@),
        path_join(path_join(path_join(h, "usr"@), "bin"@), "git.exe"@),
    ]
}

/// Git: the path set in the desktop settings when it is not empty, else the
/// first bundled binary that exists, else `git` from the search path.
pub fn resolve_git_path<E: Fn(String) -> bool>(custom: &str, hermes_home: &str, probe: &E) -> (r:
    String)
    requires
        probe_ready(*probe),
    ensures
        custom@.len() > 0 ==> r@ == custom@,
        custom@.len() == 0 ==> first_found(*probe, git_candidates(hermes_home@), "git"@, r@),
{
    let cv = chars_of(custom);
    if cv.len() > 0 {
        return string_of(cv.as_slice());
    }
    let mut cands: Vec<String> = Vec::new();
    cands.push(join3(hermes_home, "git", "bin", "git.exe"));
    cands.push(join3(hermes_home, "git", "cmd", "git.exe"));
    cands.push(join4(hermes_home, "git", "usr", "bin", "git.exe"));
    assert(cands@.map_values(|c: String| c@) =~= git_candidates(hermes_home@));
    let mut fb: Vec<char> = Vec::new();
    push_str(&mut fb, "git");
    first_existing(cands, string_of(fb.as_slice()), probe)
}

/// The bundled Node.js npm launchers, in the order tried.
pub open spec fn npm_candidates(home: Seq<char>) -> Seq<Seq<char>> {
    let n = path_join(home, "node"@);
    seq![path_join(n, "npm.cmd"@), path_join(n, "npm"@)]
}

/// npm: the path set in the desktop settings when it is not empty, else the
/// first bundled launcher that exists, else `npm` from the search path.
pub fn resolve_npm_path<E: Fn(String) -> bool>(custom: &str, hermes_home: &str, probe: &E) -> (r:
    String)
    requires
        probe_ready(*probe),
    ensures
        custom@.len() > 0 ==> r@ == custom@,
        custom@.len() == 0 ==> first_found(*probe, npm_candidates(hermes_home@), "npm"@, r@),
{
    let cv = chars_of(custom);
    if cv.len() > 0 {
        return string_of(cv.as_slice());
    }
    let mut cands: Vec<String> = Vec::new();
    cands.push(join2(hermes_home, "node", "npm.cmd"));
    cands.push(join2(hermes_home, "node", "npm"));
    assert(cands@.map_values(|c: String| c@) =~= npm_candidates(hermes_home@));
    let mut fb: Vec<char> = Vec::new();
    push_str(&mut fb, "npm");
    first_existing(cands, string_of(fb.as_slice()), probe)
}

} // verus!
