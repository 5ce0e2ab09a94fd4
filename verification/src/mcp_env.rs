//! The search path an MCP server process is started with: the inherited
//! `PATH` (Unix form, entries separated by `:`), extended with the usual
//! binary directories that a login shell would add, each once; and where
//! a server's program is looked for on it.
use vstd::prelude::*;

use crate::gateway_web::{split_char, split_on};
use crate::review_store::{join_path, path_join};
use crate::text::{clone_string, join_seqs, join_strings, strings_view, to_chars, to_owned_string};

verus! {

/// Whether two paths are equal as `std::path::Path` compares them (by
/// their components).
pub uninterp spec fn path_eq(a: Seq<char>, b: Seq<char>) -> bool;

/// Compares two paths with `std::path::Path`'s `==`. The result is named:
/// the component rules are std's.
#[verifier::external_body]
fn same_path(a: &str, b: &str) -> (r: bool)
    ensures
        r == path_eq(a@, b@),
{
    std::path::Path::new(a) == std::path::Path::new(b)
}

/// System directories added to an MCP server's search path.
pub open spec fn system_fallbacks() -> Seq<Seq<char>> {
    seq!["/opt/homebrew/bin"@, "/usr/local/bin"@, "/usr/bin"@, "/bin"@]
}

/// Directories under the home directory added to the search path.
pub open spec fn home_fallbacks(home: Seq<char>) -> Seq<Seq<char>> {
    seq![
        path_join(home, ".local/bin"@),
        path_join(home, ".cargo/bin"@),
        path_join(home, ".volta/bin"@),
        path_join(home, "bin"@),
    ]
}

/// All directories added to the search path, in order.
pub open spec fn fallbacks_spec(home: Option<Seq<char>>) -> Seq<Seq<char>> {
    match home {
        Some(h) => system_fallbacks() + home_fallbacks(h),
        None => system_fallbacks(),
    }
}

/// The directories added to an MCP server's search path.
pub fn common_path_fallbacks(home: Option<&str>) -> (r: Vec<String>)
    ensures
        strings_view(r@) == fallbacks_spec(match home {
            Some(h) => Some(h@),
            None => None,
        }),
{
    let mut out: Vec<String> = Vec::new();
    out.push(to_owned_string("/opt/homebrew/bin"));
    out.push(to_owned_string("/usr/local/bin"));
    out.push(to_owned_string("/usr/bin"));
    out.push(to_owned_string("/bin"));
    if let Some(h) = home {
        out.push(join_path(h, ".local/bin"));
        out.push(join_path(h, ".cargo/bin"));
        out.push(join_path(h, ".volta/bin"));
        out.push(join_path(h, "bin"));
    }
    proof {
        assert(strings_view(out@) =~= fallbacks_spec(match home {
            Some(h) => Some(h@),
            None => None,
        }));
    }
    out
}

/// Whether some entry equals `candidate` as a path.
pub open spec fn has_path(entries: Seq<Seq<char>>, candidate: Seq<char>) -> bool {
    exists|i: int| 0 <= i < entries.len() && path_eq(entries[i], candidate)
}

/// `entries` with `candidate` appended unless an equal path is there.
pub open spec fn push_unique_spec(entries: Seq<Seq<char>>, candidate: Seq<char>) -> Seq<Seq<char>> {
    if has_path(entries, candidate) {
        entries
    } else {
        entries.push(candidate)
    }
}

/// Appends a directory unless the list already holds it.
pub fn push_unique_path_entry(entries: &mut Vec<String>, candidate: String)
    ensures
        strings_view(final(entries)@) == push_unique_spec(strings_view(old(entries)@), candidate@),
{
    let ghost e0 = strings_view(entries@);
    let mut i: usize = 0;
    while i < entries.len()
        invariant
            i <= entries@.len(),
            e0 == strings_view(entries@),
            forall|j: int| 0 <= j < i ==> !path_eq(e0[j], candidate@),
        decreases entries@.len() - i,
    {
        if same_path(entries[i].as_str(), candidate.as_str()) {
            proof {
                assert(e0[i as int] == entries@[i as int]@);
                assert(has_path(e0, candidate@));
            }
            return;
        }
        proof {
            assert(e0[i as int] == entries@[i as int]@);
        }
        i = i + 1;
    }
    entries.push(candidate);
    proof {
        assert(strings_view(entries@) =~= e0.push(candidate@));
    }
}

/// Extends `entries` with each of `more`, each unless already there.
pub open spec fn push_all_unique(entries: Seq<Seq<char>>, more: Seq<Seq<char>>) -> Seq<Seq<char>>
    decreases more.len(),
{
    if more.len() == 0 {
        entries
    } else {
        push_unique_spec(push_all_unique(entries, more.drop_last()), more.last())
    }
}

/// `d` is an entry of `entries`, or equals one as a path.
pub open spec fn on_path(entries: Seq<Seq<char>>, d: Seq<char>) -> bool {
    exists|i: int| 0 <= i < entries.len() && (entries[i] == d || path_eq(entries[i], d))
}

/// Every added directory ends up on the search path: after the fallbacks
/// are pushed, each of them is an entry or equals one as a path; and the
/// entries that were there stay, in front.
pub proof fn law_fallbacks_end_up_on_path(entries: Seq<Seq<char>>, more: Seq<Seq<char>>)
    ensures
        push_all_unique(entries, more).len() >= entries.len(),
        push_all_unique(entries, more).take(entries.len() as int) == entries,
        forall|j: int| 0 <= j < more.len() ==> on_path(push_all_unique(entries, more), #[trigger] more[j]),
    decreases more.len(),
{
    if more.len() > 0 {
        let prev = push_all_unique(entries, more.drop_last());
        law_fallbacks_end_up_on_path(entries, more.drop_last());
        let cur = push_all_unique(entries, more);
        assert(cur == push_unique_spec(prev, more.last()));
        assert(cur.take(prev.len() as int) == prev);
        assert(cur.take(entries.len() as int) =~= prev.take(entries.len() as int));
        assert forall|j: int| 0 <= j < more.len() implies on_path(cur, #[trigger] more[j]) by {
            if j < more.len() - 1 {
                assert(more.drop_last()[j] == more[j]);
                assert(on_path(prev, more.drop_last()[j]));
                let i = choose|i: int| 0 <= i < prev.len() && (prev[i] == more.drop_last()[j] || path_eq(prev[i], more.drop_last()[j]));
                assert(cur[i] == prev[i]);
            } else if has_path(prev, more.last()) {
                let i = choose|i: int| 0 <= i < prev.len() && path_eq(prev[i], more.last());
                assert(cur[i] == prev[i]);
            } else {
                assert(cur[prev.len() as int] == more.last());
            }
        }
    }
}

/// Whether some entry contains the separator `:`.
pub open spec fn any_has_colon(entries: Seq<Seq<char>>) -> bool {
    exists|i: int| 0 <= i < entries.len() && entries[i].contains(':')
}

/// The augmented search path: the entries of `base` (split at `:`), then
/// the fallbacks not yet present, joined with `:`. When an entry cannot be
/// joined (it holds a `:`), the base path is kept as it was.
pub open spec fn augmented_path_spec(base: Option<Seq<char>>, home: Option<Seq<char>>) -> Seq<char> {
    let start: Seq<Seq<char>> = match base {
        Some(b) => split_on(b, ':'),
        None => Seq::empty(),
    };
    let entries = push_all_unique(start, fallbacks_spec(home));
    if any_has_colon(entries) {
        match base {
            Some(b) => b,
            None => Seq::empty(),
        }
    } else {
        join_seqs(entries, ":"@)
    }
}

fn has_colon(s: &str) -> (r: bool)
    ensures
        r == s@.contains(':'),
{
    let v = to_chars(s);
    let mut i: usize = 0;
    while i < v.len()
        invariant
            i <= v@.len(),
            v@ == s@,
            forall|j: int| 0 <= j < i ==> v@[j] != ':',
        decreases v@.len() - i,
    {
        if v[i] == ':' {
            proof {
                assert(s@[i as int] == ':');
            }
            return true;
        }
        i = i + 1;
    }
    false
}

/// The `PATH` an MCP server is started with.
pub fn build_augmented_path(base_path: Option<&str>, home: Option<&str>) -> (r: String)
    ensures
        r@ == augmented_path_spec(
            match base_path {
                Some(b) => Some(b@),
                None => None,
            },
            match home {
                Some(h) => Some(h@),
                None => None,
            },
        ),
{
    let mut entries: Vec<String> = match base_path {
        Some(b) => crate::gateway_web::split_char(b, ':'),
        None => Vec::new(),
    };
    let ghost start = strings_view(entries@);
    proof {
        match base_path {
            Some(b) => {},
            None => {
                assert(start =~= Seq::<Seq<char>>::empty());
            },
        }
    }
    let fallbacks = common_path_fallbacks(home);
    let ghost fs = strings_view(fallbacks@);
    let mut k: usize = 0;
    proof {
        assert(fs.take(0) =~= Seq::<Seq<char>>::empty());
    }
    while k < fallbacks.len()
        invariant
            k <= fallbacks@.len(),
            fs == strings_view(fallbacks@),
            strings_view(entries@) == push_all_unique(start, fs.take(k as int)),
        decreases fallbacks@.len() - k,
    {
        proof {
            assert(fs.take(k + 1).drop_last() =~= fs.take(k as int));
            assert(fs.take(k + 1).last() == fallbacks@[k as int]@);
        }
        push_unique_path_entry(&mut entries, clone_string(&fallbacks[k]));
        k = k + 1;
    }
    proof {
        assert(fs.take(fallbacks@.len() as int) =~= fs);
    }
    let ghost es = strings_view(entries@);
    let mut j: usize = 0;
    let mut colon = false;
    while j < entries.len()
        invariant
            j <= entries@.len(),
            es == strings_view(entries@),
            colon == exists|x: int| 0 <= x < j && es[x].contains(':'),
        decreases entries@.len() - j,
    {
        let c = has_colon(entries[j].as_str());
        proof {
            assert(es[j as int] == entries@[j as int]@);
            if c {
                assert(es[j as int].contains(':'));
            }
            if !c && colon {
                let x = choose|x: int| 0 <= x < j && es[x].contains(':');
                assert(0 <= x < j + 1 && es[x].contains(':'));
            }
        }
        colon = colon || c;
        j = j + 1;
    }
    proof {
        assert(es == push_all_unique(start, fs));
        assert(colon == any_has_colon(es));
    }
    if colon {
        match base_path {
            Some(b) => to_owned_string(b),
            None => String::new(),
        }
    } else {
        join_strings(&entries, ":")
    }
}

/// The variables of a list of `(name, value)` pairs; a later pair for a
/// name replaces an earlier one.
pub open spec fn pairs_map(s: Seq<(String, String)>) -> Map<Seq<char>, Seq<char>>
    decreases s.len(),
{
    if s.len() == 0 {
        Map::empty()
    } else {
        pairs_map(s.drop_last()).insert(s.last().0@, s.last().1@)
    }
}

/// No name occurs twice.
pub open spec fn distinct_names(s: Seq<(String, String)>) -> bool {
    forall|i: int, j: int| 0 <= i < j < s.len() ==> s[i].0@ != s[j].0@
}

proof fn lemma_pairs_map_at(s: Seq<(String, String)>, i: int)
    requires
        distinct_names(s),
        0 <= i < s.len(),
    ensures
        pairs_map(s).contains_key(s[i].0@),
        pairs_map(s)[s[i].0@] == s[i].1@,
    decreases s.len(),
{
    if i < s.len() - 1 {
        lemma_pairs_map_at(s.drop_last(), i);
    }
}

proof fn lemma_pairs_map_absent(s: Seq<(String, String)>, k: Seq<char>)
    requires
        forall|i: int| 0 <= i < s.len() ==> s[i].0@ != k,
    ensures
        !pairs_map(s).contains_key(k),
    decreases s.len(),
{
    if s.len() > 0 {
        lemma_pairs_map_absent(s.drop_last(), k);
    }
}

proof fn lemma_pairs_map_update(s: Seq<(String, String)>, i: int, p: (String, String))
    requires
        distinct_names(s),
        0 <= i < s.len(),
        s[i].0@ == p.0@,
    ensures
        pairs_map(s.update(i, p)) == pairs_map(s).insert(p.0@, p.1@),
        distinct_names(s.update(i, p)),
    decreases s.len(),
{
    let t = s.update(i, p);
    if i == s.len() - 1 {
        assert(t.drop_last() =~= s.drop_last());
        assert(pairs_map(t) =~= pairs_map(s).insert(p.0@, p.1@));
    } else {
        lemma_pairs_map_update(s.drop_last(), i, p);
        assert(t.drop_last() =~= s.drop_last().update(i, p));
        assert(s.last().0@ != p.0@);
        assert(pairs_map(t) =~= pairs_map(s).insert(p.0@, p.1@));
    }
}

/// Environment variables with distinct names.
pub struct EnvVars {
    entries: Vec<(String, String)>,
}

impl EnvVars {
    /// The variables.
    pub closed spec fn vars(&self) -> Map<Seq<char>, Seq<char>> {
        pairs_map(self.entries@)
    }

    /// No name occurs twice.
    pub closed spec fn wf(&self) -> bool {
        distinct_names(self.entries@)
    }

    /// No variables.
    pub fn new() -> (e: Self)
        ensures
            e.wf(),
            e.vars() == Map::<Seq<char>, Seq<char>>::empty(),
    {
        EnvVars { entries: Vec::new() }
    }

    /// The variables in the order they were first set.
    pub fn entries(&self) -> (r: &Vec<(String, String)>)
        requires
            self.wf(),
        ensures
            pairs_map(r@) == self.vars(),
            distinct_names(r@),
    {
        &self.entries
    }

    fn position(&self, name: &str) -> (r: Option<usize>)
        requires
            self.wf(),
        ensures
            match r {
                Some(i) => i < self.entries@.len() && self.entries@[i as int].0@ == name@,
                None => forall|i: int| 0 <= i < self.entries@.len() ==> self.entries@[i].0@ != name@,
            },
    {
        let mut i: usize = 0;
        while i < self.entries.len()
            invariant
                i <= self.entries@.len(),
                forall|j: int| 0 <= j < i ==> self.entries@[j].0@ != name@,
            decreases self.entries@.len() - i,
        {
            if crate::text::str_eq(self.entries[i].0.as_str(), name) {
                return Some(i);
            }
            i = i + 1;
        }
        None
    }

    /// The value of a variable.
    pub fn get(&self, name: &str) -> (r: Option<String>)
        requires
            self.wf(),
        ensures
            match r {
                Some(v) => self.vars().contains_key(name@) && self.vars()[name@] == v@,
                None => !self.vars().contains_key(name@),
            },
    {
        match self.position(name) {
            Some(i) => {
                proof {
                    lemma_pairs_map_at(self.entries@, i as int);
                }
                Some(clone_string(&self.entries[i].1))
            },
            None => {
                proof {
                    lemma_pairs_map_absent(self.entries@, name@);
                }
                None
            },
        }
    }

    /// Sets a variable, replacing its value if it is set.
    pub fn set(&mut self, name: String, value: String)
        requires
            old(self).wf(),
        ensures
            final(self).wf(),
            final(self).vars() == old(self).vars().insert(name@, value@),
    {
        match self.position(name.as_str()) {
            Some(i) => {
                let ghost s0 = self.entries@;
                let p = (name, value);
                proof {
                    lemma_pairs_map_update(s0, i as int, p);
                }
                self.entries.set(i, p);
            },
            None => {
                let ghost s0 = self.entries@;
                let p = (name, value);
                self.entries.push(p);
                proof {
                    assert(self.entries@.drop_last() =~= s0);
                    assert forall|a: int, b: int| 0 <= a < b < self.entries@.len() implies self.entries@[a].0@ != self.entries@[b].0@ by {
                        if b == s0.len() {
                            assert(s0[a].0@ != name@);
                        } else {
                            assert(s0[a].0@ != s0[b].0@);
                        }
                    }
                }
            },
        }
    }
}

/// The environment an MCP server is started with, from the inherited
/// variables that it passes on, the server's own settings (which win), and
/// the process's `HOME` and `PATH` where the two lack them: the same
/// variables, with `PATH` replaced by the augmented search path.
pub open spec fn mcp_env_spec(
    inherited: Seq<(String, String)>,
    extra: Seq<(String, String)>,
    process_home: Option<Seq<char>>,
    process_path: Option<Seq<char>>,
) -> Map<Seq<char>, Seq<char>> {
    let m = pairs_map(inherited + extra);
    let home = if m.contains_key("HOME"@) { Some(m["HOME"@]) } else { process_home };
    let path = if m.contains_key("PATH"@) { Some(m["PATH"@]) } else { process_path };
    m.insert("PATH"@, augmented_path_spec(path, home))
}

/// Builds the environment of an MCP server.
pub fn create_env_for_mcp_server(
    inherited: Vec<(String, String)>,
    extra_env: Option<Vec<(String, String)>>,
    process_home: Option<String>,
    process_path: Option<String>,
) -> (e: EnvVars)
    ensures
        e.wf(),
        e.vars() == mcp_env_spec(
            inherited@,
            match extra_env {
                Some(x) => x@,
                None => Seq::empty(),
            },
            match process_home {
                Some(h) => Some(h@),
                None => None,
            },
            match process_path {
                Some(p) => Some(p@),
                None => None,
            },
        ),
{
    let extra = match extra_env {
        Some(x) => x,
        None => Vec::new(),
    };
    let ghost all = inherited@ + extra@;
    let mut env = EnvVars::new();
    let mut rest = inherited;
    let mut rest2 = extra;
    rest.append(&mut rest2);
    proof {
        assert(rest@ == all);
    }
    let mut rev: Vec<(String, String)> = Vec::new();
    while rest.len() > 0
        invariant
            rev@.len() + rest@.len() == all.len(),
            forall|j: int| 0 <= j < rest@.len() ==> rest@[j] == all[j],
            forall|j: int| 0 <= j < rev@.len() ==> rev@[j] == all[all.len() - 1 - j],
        decreases rest@.len(),
    {
        let p = rest.pop().unwrap();
        rev.push(p);
    }
    proof {
        assert(pairs_map(all.take(0)) =~= Map::<Seq<char>, Seq<char>>::empty());
    }
    while rev.len() > 0
        invariant
            env.wf(),
            rev@.len() <= all.len(),
            forall|j: int| 0 <= j < rev@.len() ==> rev@[j] == all[all.len() - 1 - j],
            env.vars() == pairs_map(all.take(all.len() - rev@.len())),
        decreases rev@.len(),
    {
        let ghost k: int = all.len() - rev@.len();
        let p = rev.pop().unwrap();
        proof {
            assert(p == all[k]);
            assert(all.take(k + 1).drop_last() =~= all.take(k));
        }
        let (name, value) = p;
        env.set(name, value);
    }
    proof {
        assert(all.take(all.len() as int) =~= all);
    }
    let home = match env.get("HOME") {
        Some(h) => Some(h),
        None => process_home,
    };
    let path = match env.get("PATH") {
        Some(p) => Some(p),
        None => process_path,
    };
    let augmented = build_augmented_path(
        match &path {
            Some(p) => Some(p.as_str()),
            None => None,
        },
        match &home {
            Some(h) => Some(h.as_str()),
            None => None,
        },
    );
    env.set(to_owned_string("PATH"), augmented);
    proof {
        reveal_strlit("PATH");
        reveal_strlit("HOME");
    }
    env
}

/// Whether a path is absolute, as `std::path::Path::is_absolute` tells.
pub uninterp spec fn path_absolute(p: Seq<char>) -> bool;

/// `std::path::Path::is_absolute`. Which paths count as absolute is the
/// platform's; the result is named.
#[verifier::external_body]
fn path_is_absolute(p: &str) -> (r: bool)
    ensures
        r == path_absolute(p@),
{
    std::path::Path::new(p).is_absolute()
}

/// How many components `std::path::Path::components` finds in a path.
pub uninterp spec fn path_component_count(p: Seq<char>) -> usize;

/// `std::path::Path::components` counted. How a path splits into
/// components is std's; the count is named.
#[verifier::external_body]
fn component_count(p: &str) -> (n: usize)
    ensures
        n == path_component_count(p@),
{
    std::path::Path::new(p).components().count()
}

/// Whether a program is looked for on the search path: it is neither an
/// absolute path nor a path of more than one component.
pub open spec fn searched_for(program: Seq<char>) -> bool {
    !path_absolute(program) && path_component_count(program) <= 1
}

/// Each directory joined with the program, in order.
pub open spec fn joined_with(dirs: Seq<Seq<char>>, program: Seq<char>) -> Seq<Seq<char>>
    decreases dirs.len(),
{
    if dirs.len() == 0 {
        Seq::empty()
    } else {
        joined_with(dirs.drop_last(), program).push(path_join(dirs.last(), program))
    }
}

/// The places an MCP server's program is looked for, in order: `None` when
/// the program is run as it is, being a path of its own or there being no
/// search path; otherwise each entry of the search path joined with it.
pub fn mcp_command_candidates(program: &str, search_path: Option<&str>) -> (r: Option<Vec<String>>)
    ensures
        match r {
            None => !searched_for(program@) || search_path is None,
            Some(c) => searched_for(program@) && (search_path matches Some(p)
                && strings_view(c@) == joined_with(split_on(p@, ':'), program@)),
        },
{
    if path_is_absolute(program) || component_count(program) > 1 {
        return None;
    }
    let path = match search_path {
        Some(p) => p,
        None => return None,
    };
    let dirs = split_char(path, ':');
    let ghost d = split_on(path@, ':');
    let mut out: Vec<String> = Vec::new();
    let mut i: usize = 0;
    while i < dirs.len()
        invariant
            i <= dirs@.len(),
            strings_view(dirs@) == d,
            strings_view(out@) == joined_with(d.take(i as int), program@),
        decreases dirs@.len() - i,
    {
        let candidate = join_path(dirs[i].as_str(), program);
        let ghost before = strings_view(out@);
        out.push(candidate);
        proof {
            assert(d.take(i + 1).drop_last() =~= d.take(i as int));
            assert(d[i as int] == dirs@[i as int]@);
            assert(strings_view(out@) =~= before.push(path_join(d[i as int], program@)));
        }
        i = i + 1;
    }
    proof {
        assert(d.take(i as int) =~= d);
    }
    Some(out)
}

} // verus!
