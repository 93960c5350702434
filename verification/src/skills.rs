//! Skills: the name and description a skill's `SKILL.md` declares, the list
//! of skills found on disk in the order the panel shows them, the commands
//! that install and remove one, and the skills hub's search results.
use vstd::prelude::*;
use crate::json::{items_view, obj_get, Json, JsonValue};
use crate::text::{
    chars_of, find_from, find_sub, lines, lines_exec, slice, starts_with, starts_with_exec,
    string_of, text_order, text_order_exec, trim, trim_matches, trim_matches_exec, trim_vec,
};
use crate::text;
use crate::yaml::{utf8_len, utf8_width, utf8_width_exec};
use crate::sessions::{as_str_opt, or_empty, str_of, str_or_empty};
use crate::paths::opt_view;
use crate::cli::strings_view;

verus! {

// ───────────────────────── records ─────────────────────────

/// A skill installed in a profile.
pub struct InstalledSkill {
    pub name: String,
    pub category: String,
    pub description: String,
    pub path: String,
}

/// A skill that ships with the agent.
pub struct BundledSkill {
    pub name: String,
    pub description: String,
    pub category: String,
    pub source: String,
    pub installed: bool,
}

// ───────────────────────── front matter ─────────────────────────

/// What a line is searched for.
pub enum LineTest {
    /// Trimmed, it starts with this key (such as `name:`).
    Keyed(Vec<char>),
    /// It starts with `# `.
    Heading,
    /// It starts with neither `#` nor `---` and is not blank.
    Plain,
}

pub open spec fn line_passes(t: LineTest, l: Seq<char>) -> bool {
    match t {
        LineTest::Keyed(k) => starts_with(trim(l), k@),
        LineTest::Heading => starts_with(l, "# "@),
        LineTest::Plain => !starts_with(l, "#"@) && !starts_with(l, "---"@) && trim(l).len() > 0,
    }
}

/// The first line from `i` on that passes the test.
pub open spec fn first_line(ls: Seq<Seq<char>>, t: LineTest, i: int) -> Option<int>
    decreases ls.len() - i,
{
    if i < 0 || i >= ls.len() {
        None
    } else if line_passes(t, ls[i]) {
        Some(i)
    } else {
        first_line(ls, t, i + 1)
    }
}

/// The value of a `key: value` line: after its first colon, trimmed, with
/// surrounding double and then single quotes taken off.
pub open spec fn colon_value(l: Seq<char>) -> Seq<char> {
    match find_sub(l, seq![':']) {
        Some(i) => trim_matches(trim_matches(trim(l.skip(i + 1)), '"'), '\''),
        None => seq![],
    }
}

/// The first `n` characters, or all of them.
pub open spec fn take_chars(s: Seq<char>, n: int) -> Seq<char> {
    if s.len() <= n {
        s
    } else {
        s.take(n)
    }
}

/// Name and description of a skill. With front matter (the text starts
/// with `---`, and the block runs to the next `---` or the end) they are its
/// `name:` and `description:` values. Without, the name is the first
/// `# ` heading and the description the first 120 characters of the first
/// other non-blank line.
pub open spec fn front_matter(content: Seq<char>) -> (Seq<char>, Seq<char>) {
    if !starts_with(content, "---"@) {
        let ls = lines(content);
        let name = match first_line(ls, LineTest::Heading, 0) {
            Some(i) => trim(ls[i].skip(2)),
            None => seq![],
        };
        let desc = match first_line(ls, LineTest::Plain, 0) {
            Some(i) => take_chars(trim(ls[i]), 120),
            None => seq![],
        };
        (name, desc)
    } else {
        let end = match find_sub(content.skip(3), "---"@) {
            Some(i) => i + 3,
            None => content.len() as int,
        };
        let fm = content.subrange(3, end);
        (keyed_value(fm, "name:"@), keyed_value(fm, "description:"@))
    }
}

/// The first line whose trimmed text starts with `key`.
pub open spec fn keyed_line(ls: Seq<Seq<char>>, key: Seq<char>, i: int) -> Option<int>
    decreases ls.len() - i,
{
    if i < 0 || i >= ls.len() {
        None
    } else if starts_with(trim(ls[i]), key) {
        Some(i)
    } else {
        keyed_line(ls, key, i + 1)
    }
}

pub open spec fn keyed_value(fm: Seq<char>, key: Seq<char>) -> Seq<char> {
    match keyed_line(lines(fm), key, 0) {
        Some(i) => colon_value(lines(fm)[i]),
        None => seq![],
    }
}


pub proof fn lemma_keyed(ls: Seq<Seq<char>>, k: Vec<char>, i: int)
    ensures
        first_line(ls, LineTest::Keyed(k), i) == keyed_line(ls, k@, i),
    decreases ls.len() - i,
{
    if 0 <= i < ls.len() {
        lemma_keyed(ls, k, i + 1);
    }
}

pub open spec fn lines_view(ls: Seq<Vec<char>>) -> Seq<Seq<char>> {
    ls.map_values(|l: Vec<char>| l@)
}

fn line_passes_exec(t: &LineTest, l: &Vec<char>) -> (b: bool)
    ensures
        b == line_passes(*t, l@),
{
    match t {
        LineTest::Keyed(k) => {
            let tl = trim_vec(l);
            starts_with_exec(&tl, k)
        },
        LineTest::Heading => {
            let p: Vec<char> = vec!['#', ' '];
            proof { reveal_strlit("# "); }
            assert(p@ =~= "# "@);
            starts_with_exec(l, &p)
        },
        LineTest::Plain => {
            let h: Vec<char> = vec!['#'];
            let d: Vec<char> = vec!['-', '-', '-'];
            proof {
                reveal_strlit("#");
                reveal_strlit("---");
            }
            assert(h@ =~= "#"@);
            assert(d@ =~= "---"@);
            let tl = trim_vec(l);
            !starts_with_exec(l, &h) && !starts_with_exec(l, &d) && tl.len() > 0
        },
    }
}

/// The index of the first line that passes the test.
pub(crate) fn find_line(ls: &Vec<Vec<char>>, t: &LineTest) -> (r: Option<usize>)
    ensures
        match r {
            Some(i) => i < ls.len() && line_passes(*t, ls@[i as int]@)
                && first_line(lines_view(ls@), *t, 0) == Some(i as int),
            None => first_line(lines_view(ls@), *t, 0) is None,
        },
{
    let ghost lv = lines_view(ls@);
    let mut i: usize = 0;
    while i < ls.len()
        invariant
            i <= ls.len(),
            lv == lines_view(ls@),
            first_line(lv, *t, 0) == first_line(lv, *t, i as int),
        decreases ls.len() - i,
    {
        assert(lv[i as int] == ls@[i as int]@);
        if line_passes_exec(t, &ls[i]) {
            return Some(i);
        }
        i += 1;
    }
    None
}

pub(crate) fn colon_value_exec(l: &Vec<char>) -> (r: Vec<char>)
    ensures
        r@ == colon_value(l@),
{
    let colon: Vec<char> = vec![':'];
    assert(l@.skip(0) =~= l@);
    assert(colon@ =~= seq![':']);
    proof { crate::text::lemma_find_sub(l@, colon@); }
    match find_from(l, &colon, 0) {
        Some(i) => {
            assert(find_sub(l@, colon@) == Some(i as int));
            assert(crate::text::matches_at(l@, colon@, i as int));
            assert(colon@.len() == 1);
            assert(i + 1 <= l.len());
            let rest = slice(l, i + 1, l.len());
            assert(rest@ =~= l@.skip(i + 1));
            let t = trim_vec(&rest);
            let a = trim_matches_exec(&t, '"');
            trim_matches_exec(&a, '\'')
        },
        None => Vec::new(),
    }
}

pub(crate) fn keyed_value_exec(fm: &Vec<char>, key: Vec<char>) -> (r: Vec<char>)
    ensures
        r@ == keyed_value(fm@, key@),
{
    let ls = lines_exec(fm);
    assert(lines_view(ls@) =~= lines(fm@));
    let ghost k = key;
    let t = LineTest::Keyed(key);
    proof { lemma_keyed(lines(fm@), k, 0); }
    assert(t == LineTest::Keyed(k));
    assert(first_line(lines(fm@), t, 0) == keyed_line(lines(fm@), key@, 0));
    let found = find_line(&ls, &t);
    assert(lines_view(ls@) == lines(fm@));
    match found {
        Some(i) => {
            assert(keyed_line(lines(fm@), key@, 0) == Some(i as int));
            assert(ls@[i as int]@ == lines(fm@)[i as int]);
            colon_value_exec(&ls[i])
        },
        None => {
            assert(keyed_line(lines(fm@), key@, 0) is None);
            Vec::new()
        },
    }
}

/// Name and description of a skill, from the text of its `SKILL.md`.
pub fn parse_skill_frontmatter(content: &str) -> (r: (String, String))
    ensures
        (r.0@, r.1@) == front_matter(content@),
{
    let c = chars_of(content);
    let dashes: Vec<char> = vec!['-', '-', '-'];
    proof { reveal_strlit("---"); }
    assert(dashes@ =~= "---"@);
    if !starts_with_exec(&c, &dashes) {
        let ls = lines_exec(&c);
        assert(lines_view(ls@) =~= lines(c@));
        let name = match find_line(&ls, &LineTest::Heading) {
            Some(i) => {
                let l = &ls[i];
                assert(l@ == lines(c@)[i as int]);
                proof { reveal_strlit("# "); }
                let rest = slice(l, 2, l.len());
                assert(rest@ =~= l@.skip(2));
                trim_vec(&rest)
            },
            None => Vec::new(),
        };
        let desc = match find_line(&ls, &LineTest::Plain) {
            Some(i) => {
                assert(ls@[i as int]@ == lines(c@)[i as int]);
                let t = trim_vec(&ls[i]);
                if t.len() <= 120 {
                    t
                } else {
                    let s = slice(&t, 0, 120);
                    assert(s@ =~= t@.take(120));
                    s
                }
            },
            None => Vec::new(),
        };
        assert(!starts_with(c@, "---"@));
        assert(lines_view(ls@) == lines(c@));
        assert(name@ == front_matter(c@).0);
        assert(desc@ == front_matter(c@).1);
        return (string_of(name.as_slice()), string_of(desc.as_slice()));
    }
    proof { crate::text::lemma_find_sub(c@.skip(3), dashes@); }
    let end = match find_from(&c, &dashes, 3) {
        Some(i) => i,
        None => c.len(),
    };
    let fm = slice(&c, 3, end);
    let name = keyed_value_exec(&fm, chars_of("name:"));
    let desc = keyed_value_exec(&fm, chars_of("description:"));
    (string_of(name.as_slice()), string_of(desc.as_slice()))
}


// ───────────────────────── skills on disk ─────────────────────────

pub type SView = (Seq<char>, Seq<char>, Seq<char>, Seq<char>);

pub open spec fn skill_view(k: InstalledSkill) -> SView {
    (k.name@, k.category@, k.description@, k.path@)
}

pub open spec fn skill_views(s: Seq<InstalledSkill>) -> Seq<SView> {
    s.map_values(|k: InstalledSkill| skill_view(k))
}

/// How many leading characters fit in `n` bytes of UTF-8.
pub open spec fn cut_chars(c: Seq<char>, n: int) -> nat
    decreases c.len(),
{
    if c.len() == 0 || utf8_width(c[0]) > n {
        0
    } else {
        1 + cut_chars(c.drop_first(), n - utf8_width(c[0]))
    }
}

/// The part of a `SKILL.md` that is read: its first 4000 bytes.
pub open spec fn skill_head(c: Seq<char>) -> Seq<char> {
    if utf8_len(c) <= 4000 {
        c
    } else {
        c.take(cut_chars(c, 4000) as int)
    }
}

/// The first 4000 bytes end at a character boundary (else the cut would panic).
pub open spec fn head_on_boundary(c: Seq<char>) -> bool {
    utf8_len(c) <= 4000 || utf8_len(c.take(cut_chars(c, 4000) as int)) == 4000
}

proof fn lemma_utf8_len_push(c: Seq<char>, i: int)
    requires
        0 <= i < c.len(),
    ensures
        utf8_len(c.take(i + 1)) == utf8_len(c.take(i)) + utf8_width(c[i]),
{
    assert(c.take(i + 1).drop_last() =~= c.take(i));
}

fn skill_head_exec(c: &Vec<char>) -> (r: Vec<char>)
    ensures
        r@ == skill_head(c@),
        r@ == c@.take(cut_chars(c@, 4000) as int),
{
    let mut i: usize = 0;
    let mut used: u128 = 0;
    assert(c@.take(0) =~= seq![]);
    assert(c@.skip(0) =~= c@);
    while i < c.len() && used + utf8_width_exec(c[i]) <= 4000
        invariant
            i <= c.len(),
            used == utf8_len(c@.take(i as int)),
            used <= 4000,
            cut_chars(c@, 4000) == i + cut_chars(c@.skip(i as int), 4000 - used),
        decreases c.len() - i,
    {
        proof {
            lemma_utf8_len_push(c@, i as int);
            assert(c@.skip(i as int)[0] == c@[i as int]);
            assert(c@.skip(i as int).drop_first() =~= c@.skip(i + 1));
        }
        used = used + utf8_width_exec(c[i]);
        i += 1;
    }
    proof {
        if i < c.len() {
            assert(c@.skip(i as int)[0] == c@[i as int]);
        }
        assert(cut_chars(c@, 4000) == i);
        if i == c.len() {
            assert(c@.take(i as int) =~= c@);
        }
    }
    let r = slice(c, 0, i);
    assert(r@ =~= c@.take(i as int));
    proof {
        if utf8_len(c@) <= 4000 && i < c.len() {
            // a character that did not fit would push the total past 4000
            lemma_utf8_len_prefix_le(c@, i as int + 1);
            lemma_utf8_len_push(c@, i as int);
        }
    }
    r
}

proof fn lemma_utf8_len_prefix_le(c: Seq<char>, k: int)
    requires
        0 <= k <= c.len(),
    ensures
        utf8_len(c.take(k)) <= utf8_len(c),
    decreases c.len() - k,
{
    if k < c.len() {
        lemma_utf8_len_prefix_le(c, k + 1);
        lemma_utf8_len_push(c, k);
    } else {
        assert(c.take(k) =~= c);
    }
}

/// Whether a `SKILL.md` can be read: either it fits in 4000 bytes, or its
/// 4000th byte ends a character.
pub fn skill_head_on_boundary(content: &str) -> (b: bool)
    ensures
        b == head_on_boundary(content@),
{
    let c = chars_of(content);
    if crate::memory::utf8_len_exec(&c) <= 4000 {
        return true;
    }
    let head = skill_head_exec(&c);
    crate::memory::utf8_len_exec(&head) == 4000
}

/// The record of a skill directory: the name and description its
/// `SKILL.md` declares in its first 4000 bytes, the directory's name when
/// it declares no name.
pub fn skill_record(dir_name: &str, category: &str, content: &str, path: &str) -> (r: InstalledSkill)
    requires
        head_on_boundary(content@),
    ensures
        ({
            let (n, d) = front_matter(skill_head(content@));
            skill_view(r) == (if n.len() == 0 { dir_name@ } else { n }, category@, d, path@)
        }),
{
    let c = chars_of(content);
    let head = skill_head_exec(&c);
    let hs = string_of(head.as_slice());
    let (n, d) = parse_skill_frontmatter(hs.as_str());
    let nc = chars_of(n.as_str());
    let name = if nc.len() == 0 { text::owned(dir_name) } else { n };
    InstalledSkill { name, category: text::owned(category), description: d, path: text::owned(path) }
}

/// `x` sorts strictly before `y`: by category, then by name.
pub open spec fn skill_before(x: SView, y: SView) -> bool {
    text_order(x.1, y.1) < 0 || (text_order(x.1, y.1) == 0 && text_order(x.0, y.0) < 0)
}

/// The position of the first element that `x` sorts before.
pub open spec fn first_after(s: Seq<SView>, x: SView) -> int
    decreases s.len(),
{
    if s.len() == 0 {
        0
    } else if skill_before(x, s[0]) {
        0
    } else {
        1 + first_after(s.drop_first(), x)
    }
}

/// The skills ordered by category and then name, equal ones in their order
/// (a stable sort).
pub open spec fn skills_sorted(s: Seq<SView>) -> Seq<SView>
    decreases s.len(),
{
    if s.len() == 0 {
        seq![]
    } else {
        let sorted = skills_sorted(s.drop_last());
        sorted.insert(first_after(sorted, s.last()), s.last())
    }
}

pub proof fn lemma_first_after(s: Seq<SView>, x: SView)
    ensures
        0 <= first_after(s, x) <= s.len(),
    decreases s.len(),
{
    if s.len() > 0 && !skill_before(x, s[0]) {
        lemma_first_after(s.drop_first(), x);
    }
}

fn before_exec(x: &InstalledSkill, y: &InstalledSkill) -> (b: bool)
    ensures
        b == skill_before(skill_view(*x), skill_view(*y)),
{
    let c = text_order_exec(x.category.as_str(), y.category.as_str());
    if c < 0 {
        true
    } else if c == 0 {
        text_order_exec(x.name.as_str(), y.name.as_str()) < 0
    } else {
        false
    }
}

/// Orders skills by category, then name.
pub fn sort_skills(skills: Vec<InstalledSkill>) -> (r: Vec<InstalledSkill>)
    ensures
        skill_views(r@) == skills_sorted(skill_views(skills@)),
{
    let ghost sv = skill_views(skills@);
    let mut out: Vec<InstalledSkill> = Vec::new();
    let mut rest = skills;
    let ghost mut i: int = 0;
    assert(sv.skip(0) =~= sv);
    assert(skill_views(out@) =~= skills_sorted(sv.take(0)));
    while rest.len() > 0
        invariant
            0 <= i <= sv.len(),
            rest@.len() + i == sv.len(),
            skill_views(rest@) == sv.skip(i),
            skill_views(out@) == skills_sorted(sv.take(i)),
        decreases rest.len(),
    {
        let ghost old_rest = rest@;
        let x = rest.remove(0);
        proof {
            assert(skill_views(old_rest)[0] == skill_view(x));
            assert(sv.skip(i)[0] == skill_view(x));
            assert(sv.take(i + 1).drop_last() =~= sv.take(i));
            assert(sv.take(i + 1).last() == skill_view(x));
            assert forall|j: int| 0 <= j < rest@.len() implies #[trigger] skill_views(rest@)[j] == sv.skip(i + 1)[j] by {
                assert(rest@[j] == old_rest[j + 1]);
                assert(skill_views(old_rest)[j + 1] == sv.skip(i)[j + 1]);
            }
            assert(skill_views(rest@) =~= sv.skip(i + 1));
            lemma_first_after(skill_views(out@), skill_view(x));
        }
        let mut k: usize = 0;
        assert(skill_views(out@).skip(0) =~= skill_views(out@));
        while k < out.len() && !before_exec(&x, &out[k])
            invariant
                k <= out.len(),
                first_after(skill_views(out@), skill_view(x)) == k + first_after(skill_views(out@).skip(k as int), skill_view(x)),
            decreases out.len() - k,
        {
            assert(skill_views(out@).skip(k as int)[0] == skill_view(out@[k as int]));
            assert(skill_views(out@).skip(k as int).drop_first() =~= skill_views(out@).skip(k + 1));
            k += 1;
        }
        proof {
            if k < out.len() {
                assert(skill_views(out@).skip(k as int)[0] == skill_view(out@[k as int]));
            }
            assert(first_after(skill_views(out@).skip(k as int), skill_view(x)) == 0);
        }
        let ghost before = skill_views(out@);
        out.insert(k, x);
        proof {
            assert(skill_views(out@) =~= before.insert(k as int, skill_view(x)));
            i = i + 1;
        }
    }
    assert(sv.take(sv.len() as int) =~= sv);
    out
}

/// A skill that ships with the agent, from its record: not installed, from
/// the bundle.
pub fn bundled_skill(k: InstalledSkill) -> (r: BundledSkill)
    ensures
        r.name@ == k.name@,
        r.description@ == k.description@,
        r.category@ == k.category@,
        r.source@ == "bundled"@,
        !r.installed,
{
    BundledSkill { name: k.name, description: k.description, category: k.category, source: text::owned("bundled"), installed: false }
}


/// An installed skill as the remote host reports it.
pub fn installed_skill_from_json(v: &JsonValue) -> (r: InstalledSkill)
    ensures
        r.name@ == str_or_empty(as_str_opt(v@.get("name"@))),
        r.category@ == str_or_empty(as_str_opt(v@.get("category"@))),
        r.description@ == str_or_empty(as_str_opt(v@.get("description"@))),
        r.path@ == str_or_empty(as_str_opt(v@.get("path"@))),
{
    InstalledSkill {
        name: or_empty(str_of(v.get("name"))),
        category: or_empty(str_of(v.get("category"))),
        description: or_empty(str_of(v.get("description"))),
        path: or_empty(str_of(v.get("path"))),
    }
}

// ───────────────────────── install and remove ─────────────────────────

/// The profile flag: `-p <name>` for a profile other than `default`.
pub open spec fn profile_flag(profile: Option<Seq<char>>) -> Seq<Seq<char>> {
    match profile {
        Some(p) => if p != "default"@ { seq!["-p"@, p] } else { seq![] },
        None => seq![],
    }
}

/// `hermes skills install <name> --yes [-p <profile>]`.
pub open spec fn install_args(name: Seq<char>, profile: Option<Seq<char>>) -> Seq<Seq<char>> {
    seq!["skills"@, "install"@, name, "--yes"@] + profile_flag(profile)
}

/// `hermes skills uninstall <name> [-p <profile>]`.
pub open spec fn uninstall_args(name: Seq<char>, profile: Option<Seq<char>>) -> Seq<Seq<char>> {
    seq!["skills"@, "uninstall"@, name] + profile_flag(profile)
}

fn push_profile_flag(args: &mut Vec<String>, profile: Option<&str>)
    ensures
        strings_view(final(args)@) == strings_view(old(args)@) + profile_flag(opt_view(profile)),
{
    let ghost before = strings_view(args@);
    match profile {
        Some(p) => {
            if !text::str_eq(p, "default") {
                args.push(text::owned("-p"));
                args.push(text::owned(p));
                assert(strings_view(args@) =~= before + seq!["-p"@, p@]);
            } else {
                assert(strings_view(args@) =~= before + seq![]);
            }
        },
        None => {
            assert(strings_view(args@) =~= before + seq![]);
        },
    }
}

/// The arguments that install a skill into a profile.
pub fn skill_install_args(name: &str, profile: Option<&str>) -> (r: Vec<String>)
    ensures
        strings_view(r@) == install_args(name@, opt_view(profile)),
{
    let mut args: Vec<String> = Vec::new();
    args.push(text::owned("skills"));
    args.push(text::owned("install"));
    args.push(text::owned(name));
    args.push(text::owned("--yes"));
    assert(strings_view(args@) =~= seq!["skills"@, "install"@, name@, "--yes"@]);
    push_profile_flag(&mut args, profile);
    args
}

/// The arguments that remove a skill from a profile.
pub fn skill_uninstall_args(name: &str, profile: Option<&str>) -> (r: Vec<String>)
    ensures
        strings_view(r@) == uninstall_args(name@, opt_view(profile)),
{
    let mut args: Vec<String> = Vec::new();
    args.push(text::owned("skills"));
    args.push(text::owned("uninstall"));
    args.push(text::owned(name));
    assert(strings_view(args@) =~= seq!["skills"@, "uninstall"@, name@]);
    push_profile_flag(&mut args, profile);
    args
}

/// The answer to an install or removal: `{"success": true}`, or
/// `{"success": false, "error": <message>}`.
pub open spec fn outcome_json(outcome: Result<(), Seq<char>>) -> Json {
    match outcome {
        Ok(_) => Json::Object(seq![("success"@, Json::Bool(true))]),
        Err(e) => Json::Object(seq![("success"@, Json::Bool(false)), ("error"@, Json::Str(e))]),
    }
}

pub fn skill_outcome(outcome: Result<(), String>) -> (r: JsonValue)
    ensures
        r@ == outcome_json(match outcome {
            Ok(u) => Ok(u),
            Err(e) => Err(e@),
        }),
{
    match outcome {
        Ok(_) => {
            let m: Vec<(String, JsonValue)> = vec![(text::owned("success"), JsonValue::Bool(true))];
            let r = JsonValue::Object(m);
            assert(r@ == outcome_json(Ok(()))) by {
                assert(crate::json::entries_view(m@) =~= seq![("success"@, Json::Bool(true))]);
            }
            r
        },
        Err(e) => {
            let ghost ev = e@;
            let m: Vec<(String, JsonValue)> = vec![(text::owned("success"), JsonValue::Bool(false)), (text::owned("error"), JsonValue::Str(e))];
            let r = JsonValue::Object(m);
            assert(r@ == outcome_json(Err(ev))) by {
                assert(crate::json::entries_view(m@) =~= seq![("success"@, Json::Bool(false)), ("error"@, Json::Str(ev))]);
            }
            r
        },
    }
}


// ───────────────────────── the skills hub ─────────────────────────

/// A skill found on a hub.
pub struct HubSkill {
    pub name: String,
    pub description: String,
    pub category: String,
    pub author: String,
    pub downloads: u32,
    pub installed: bool,
}

/// The UTF-8 encoding of a character.
pub open spec fn utf8_bytes(c: char) -> Seq<u8> {
    let u = c as u32;
    if u < 0x80 {
        seq![u as u8]
    } else if u < 0x800 {
        seq![(0xC0 + u / 64) as u8, (0x80 + u % 64) as u8]
    } else if u < 0x10000 {
        seq![(0xE0 + u / 4096) as u8, (0x80 + (u / 64) % 64) as u8, (0x80 + u % 64) as u8]
    } else {
        seq![(0xF0 + u / 262144) as u8, (0x80 + (u / 4096) % 64) as u8, (0x80 + (u / 64) % 64) as u8, (0x80 + u % 64) as u8]
    }
}

pub open spec fn hex_digit(d: int) -> char {
    if d < 10 {
        (('0' as int) + d) as char
    } else {
        (('A' as int) + d - 10) as char
    }
}

pub open spec fn unreserved(b: u8) -> bool {
    ||| (0x41 <= b <= 0x5A)
    ||| (0x61 <= b <= 0x7A)
    ||| (0x30 <= b <= 0x39)
    ||| b == 0x2D || b == 0x5F || b == 0x2E || b == 0x7E
}

/// One byte of a query value: letters, digits and `-_.~` as they are, a
/// space as `+`, any other byte as `%` and two upper-case hex digits.
pub open spec fn encode_byte(b: u8) -> Seq<char> {
    if unreserved(b) {
        seq![(b as u32) as char]
    } else if b == 0x20 {
        seq!['+']
    } else {
        seq!['%', hex_digit(b as int / 16), hex_digit(b as int % 16)]
    }
}

pub open spec fn encode_bytes(bs: Seq<u8>) -> Seq<char>
    decreases bs.len(),
{
    if bs.len() == 0 {
        seq![]
    } else {
        encode_bytes(bs.drop_last()) + encode_byte(bs.last())
    }
}

/// The query encoding of a text: each byte of its UTF-8 form encoded.
pub open spec fn url_encoded(s: Seq<char>) -> Seq<char>
    decreases s.len(),
{
    if s.len() == 0 {
        seq![]
    } else {
        url_encoded(s.drop_last()) + encode_bytes(utf8_bytes(s.last()))
    }
}

fn hex_digit_exec(d: u8) -> (c: char)
    requires
        d < 16,
    ensures
        c == hex_digit(d as int),
{
    if d < 10 {
        ((0x30u8 + d) as char)
    } else {
        ((0x41u8 + d - 10) as char)
    }
}

fn push_encoded_byte(out: &mut Vec<char>, b: u8)
    ensures
        final(out)@ == old(out)@ + encode_byte(b),
{
    let is_unreserved = (0x41 <= b && b <= 0x5A) || (0x61 <= b && b <= 0x7A) || (0x30 <= b && b <= 0x39)
        || b == 0x2D || b == 0x5F || b == 0x2E || b == 0x7E;
    if is_unreserved {
        out.push(b as char);
    } else if b == 0x20 {
        out.push('+');
    } else {
        out.push('%');
        out.push(hex_digit_exec(b / 16));
        out.push(hex_digit_exec(b % 16));
    }
}

fn utf8_bytes_exec(c: char) -> (r: Vec<u8>)
    ensures
        r@ == utf8_bytes(c),
{
    let u = c as u32;
    if u < 0x80 {
        vec![u as u8]
    } else if u < 0x800 {
        vec![(0xC0 + u / 64) as u8, (0x80 + u % 64) as u8]
    } else if u < 0x10000 {
        vec![(0xE0 + u / 4096) as u8, (0x80 + (u / 64) % 64) as u8, (0x80 + u % 64) as u8]
    } else {
        vec![(0xF0 + u / 262144) as u8, (0x80 + (u / 4096) % 64) as u8, (0x80 + (u / 64) % 64) as u8, (0x80 + u % 64) as u8]
    }
}

/// Encodes a search query for a URL.
pub fn urlencoding(s: &str) -> (r: String)
    ensures
        r@ == url_encoded(s@),
{
    let cs = chars_of(s);
    let mut out: Vec<char> = Vec::new();
    let mut i: usize = 0;
    assert(cs@.take(0) =~= seq![]);
    while i < cs.len()
        invariant
            i <= cs.len(),
            out@ == url_encoded(cs@.take(i as int)),
        decreases cs.len() - i,
    {
        let bs = utf8_bytes_exec(cs[i]);
        let ghost start = out@;
        let mut j: usize = 0;
        assert(bs@.take(0) =~= seq![]);
        assert(start + encode_bytes(bs@.take(0)) =~= start);
        while j < bs.len()
            invariant
                j <= bs.len(),
                out@ == start + encode_bytes(bs@.take(j as int)),
            decreases bs.len() - j,
        {
            push_encoded_byte(&mut out, bs[j]);
            assert(bs@.take(j + 1).drop_last() =~= bs@.take(j as int));
            assert(out@ =~= start + encode_bytes(bs@.take(j + 1)));
            j += 1;
        }
        assert(bs@.take(bs.len() as int) =~= bs@);
        assert(cs@.take(i + 1).drop_last() =~= cs@.take(i as int));
        i += 1;
    }
    assert(cs@.take(cs.len() as int) =~= cs@);
    string_of(out.as_slice())
}

/// The hub search address for a query.
pub fn hub_search_url(query: &str) -> (r: String)
    ensures
        r@ == "https://agentskills.io/api/skills?q="@ + url_encoded(query@),
{
    let q = urlencoding(query);
    text::concat2("https://agentskills.io/api/skills?q=", q.as_str())
}

/// The Hugging Face skills search address for a query.
pub fn huggingface_search_url(query: &str) -> (r: String)
    ensures
        r@ == "https://huggingface.co/api/skills?search="@ + url_encoded(query@),
{
    let q = urlencoding(query);
    text::concat2("https://huggingface.co/api/skills?search=", q.as_str())
}

pub type HView = (Seq<char>, Seq<char>, Seq<char>, Seq<char>, u32, bool);

pub open spec fn hub_view(h: HubSkill) -> HView {
    (h.name@, h.description@, h.category@, h.author@, h.downloads, h.installed)
}

/// A hub item: its text fields (empty when absent), its download count
/// truncated to 32 bits (0 when absent), not installed.
pub open spec fn hub_item(item: Json) -> HView {
    (
        str_or_empty(item.str_field("name"@)),
        str_or_empty(item.str_field("description"@)),
        str_or_empty(item.str_field("category"@)),
        str_or_empty(item.str_field("author"@)),
        (match item.field("downloads"@).as_u64() {
            Some(n) => n % 0x1_0000_0000,
            None => 0,
        }) as u32,
        false,
    )
}

/// The items of a hub answer: its `skills` array, or the answer itself when
/// it is an array (only the latter where `wrapped` is false).
pub open spec fn hub_items(v: Json, wrapped: bool) -> Seq<Json> {
    match (if wrapped { v.get("skills"@) } else { None }) {
        Some(Json::Array(a)) => a,
        _ => match v {
            Json::Array(a) => a,
            _ => seq![],
        },
    }
}

fn hub_skill_exec(item: &JsonValue) -> (r: HubSkill)
    ensures
        hub_view(r) == hub_item(item@),
{
    let d: u32 = match item.u64_field("downloads") {
        Some(n) => (n % 0x1_0000_0000) as u32,
        None => 0,
    };
    HubSkill {
        name: or_empty(item.str_field("name")),
        description: or_empty(item.str_field("description")),
        category: or_empty(item.str_field("category")),
        author: or_empty(item.str_field("author")),
        downloads: d,
        installed: false,
    }
}

/// The skills of a hub answer, in its order.
pub fn hub_skills(v: &JsonValue, wrapped: bool) -> (r: Vec<HubSkill>)
    ensures
        r@.len() == hub_items(v@, wrapped).len(),
        forall|k: int| 0 <= k < r@.len() ==> #[trigger] hub_view(r@[k]) == hub_item(hub_items(v@, wrapped)[k]),
{
    let empty: Vec<JsonValue> = Vec::new();
    let inner = if wrapped { v.get("skills") } else { None };
    let items: &Vec<JsonValue> = match inner {
        Some(JsonValue::Array(a)) => a,
        _ => match v {
            JsonValue::Array(a) => a,
            _ => &empty,
        },
    };
    assert(items_view(items@) == hub_items(v@, wrapped)) by {
        assert(items_view(empty@) =~= seq![]);
    }
    let mut out: Vec<HubSkill> = Vec::new();
    let mut i: usize = 0;
    while i < items.len()
        invariant
            i <= items.len(),
            out@.len() == i,
            items_view(items@) == hub_items(v@, wrapped),
            forall|k: int| 0 <= k < i ==> #[trigger] hub_view(out@[k]) == hub_item(hub_items(v@, wrapped)[k]),
        decreases items.len() - i,
    {
        assert(items_view(items@)[i as int] == items@[i as int]@);
        let h = hub_skill_exec(&items[i]);
        out.push(h);
        i += 1;
    }
    out
}

} // verus!
