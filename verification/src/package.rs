//! S+N++ package manifests (`snp.toml`), import validation against the
//! declared dependencies, and local dependency resolution.
//!
//! A manifest keeps its dependencies in a vector ordered strictly by name, so
//! that each name occurs once and they are visited in name order.

use vstd::prelude::*;
use crate::ast::strings_model;
use crate::stdlib::{is_std_module, lemma_first_unknown, resolution, resolve};
use crate::text::{
    chars_of, has_prefix, is_space, joined_lines, lemma_find_char_range, lemma_lines_concat, lemma_lines_of_joined,
    plain_line, skip_back, skip_front, same_text, starts_with, decimal, decimal_string, find_char, index_of, lemma_text_lt_asymmetric,
    lemma_text_lt_transitive, line_end, lines_from, same_chars, slice_chars, strip, stripped,
    string_of, text_lines, text_lt, text_order, trimmed, Order,
};

verus! {

/// A declared dependency: its package name and where it is found.
#[derive(Debug, Clone, PartialEq)]
pub struct Dependency {
    pub name: String,
    pub source: String,
}

/// A parsed `snp.toml`.
#[derive(Debug, Clone, PartialEq)]
pub struct Manifest {
    pub name: String,
    pub version: String,
    pub entry: String,
    pub dependencies: Vec<Dependency>,
}

/// A manifest as the specifications see it.
pub struct ManifestModel {
    pub name: Seq<char>,
    pub version: Seq<char>,
    pub entry: Seq<char>,
    pub dependencies: Map<Seq<char>, Seq<char>>,
}

pub open spec fn named_at(s: Seq<Dependency>, k: Seq<char>, i: int) -> bool {
    0 <= i < s.len() && s[i].name@ == k
}

/// The map from dependency names to sources that a sequence of dependencies denotes.
pub open spec fn dependency_map(s: Seq<Dependency>) -> Map<Seq<char>, Seq<char>> {
    Map::new(
        |k: Seq<char>| exists|i: int| named_at(s, k, i),
        |k: Seq<char>| s[choose|i: int| named_at(s, k, i)].source@,
    )
}

/// Names strictly increase along the sequence.
pub open spec fn sorted_by_name(s: Seq<Dependency>) -> bool {
    forall|i: int, j: int| 0 <= i < j < s.len() ==> text_lt(#[trigger] s[i].name@, #[trigger] s[j].name@)
}

impl View for Manifest {
    type V = ManifestModel;

    open spec fn view(&self) -> ManifestModel {
        ManifestModel {
            name: self.name@,
            version: self.version@,
            entry: self.entry@,
            dependencies: dependency_map(self.dependencies@),
        }
    }
}

/// In a name-sorted sequence the entry at `i` gives the map's source for its name.
pub proof fn lemma_dependency_entry(s: Seq<Dependency>, i: int)
    requires
        sorted_by_name(s),
        0 <= i < s.len(),
    ensures
        dependency_map(s).contains_key(s[i].name@),
        dependency_map(s)[s[i].name@] == s[i].source@,
{
    assert(named_at(s, s[i].name@, i));
    let j = choose|j: int| named_at(s, s[i].name@, j);
    if j < i {
        lemma_text_lt_asymmetric(s[j].name@, s[i].name@);
    } else if i < j {
        lemma_text_lt_asymmetric(s[i].name@, s[j].name@);
    }
}

/// What the reader has gathered after some lines of a manifest.
pub struct ManifestDraft {
    pub section: Seq<char>,
    pub name: Option<Seq<char>>,
    pub version: Option<Seq<char>>,
    pub entry: Option<Seq<char>>,
    pub dependencies: Map<Seq<char>, Seq<char>>,
}

pub open spec fn empty_draft() -> ManifestDraft {
    ManifestDraft {
        section: seq![],
        name: None,
        version: None,
        entry: None,
        dependencies: Map::empty(),
    }
}

/// A line without its comment, trimmed.
pub open spec fn line_content(raw: Seq<char>) -> Seq<char> {
    trimmed(raw.take(find_char(raw, '#', 0)))
}

pub open spec fn is_section_header(line: Seq<char>) -> bool {
    line.len() > 0 && line[0] == '[' && line.last() == ']'
}

/// How one line, numbered `n` from 1, changes what has been read, or the error it raises.
pub open spec fn manifest_line(d: ManifestDraft, raw: Seq<char>, n: nat) -> Result<ManifestDraft, Seq<char>> {
    let line = line_content(raw);
    if line.len() == 0 {
        Ok(d)
    } else if is_section_header(line) {
        let s = trimmed(line.subrange(1, line.len() - 1));
        if s == "package"@ || s == "dependencies"@ {
            Ok(ManifestDraft { section: s, name: d.name, version: d.version, entry: d.entry, dependencies: d.dependencies })
        } else {
            Err("unknown manifest section `"@ + s + "` at line "@ + decimal(n))
        }
    } else {
        let e = find_char(line, '=', 0);
        if e == line.len() {
            Err("expected key = value at manifest line "@ + decimal(n))
        } else {
            let key = trimmed(line.take(e));
            let value = stripped(trimmed(line.skip(e + 1)), true);
            if d.section == "package"@ {
                if key == "name"@ {
                    Ok(ManifestDraft { section: d.section, name: Some(value), version: d.version, entry: d.entry, dependencies: d.dependencies })
                } else if key == "version"@ {
                    Ok(ManifestDraft { section: d.section, name: d.name, version: Some(value), entry: d.entry, dependencies: d.dependencies })
                } else if key == "entry"@ {
                    Ok(ManifestDraft { section: d.section, name: d.name, version: d.version, entry: Some(value), dependencies: d.dependencies })
                } else {
                    Err("unknown package field `"@ + key + "` at line "@ + decimal(n))
                }
            } else if d.section == "dependencies"@ {
                if key.len() == 0 || value.len() == 0 {
                    Err("invalid dependency at line "@ + decimal(n))
                } else {
                    Ok(ManifestDraft { section: d.section, name: d.name, version: d.version, entry: d.entry, dependencies: d.dependencies.insert(key, value) })
                }
            } else {
                Err("manifest field outside a section at line "@ + decimal(n))
            }
        }
    }
}

/// Reads `lines[k..]`, the line at index `k` being line `k + 1`.
pub open spec fn manifest_lines(lines: Seq<Seq<char>>, k: int, d: ManifestDraft) -> Result<ManifestDraft, Seq<char>>
    decreases lines.len() - k,
{
    if !(0 <= k < lines.len()) {
        Ok(d)
    } else {
        match manifest_line(d, lines[k], (k + 1) as nat) {
            Ok(d2) => manifest_lines(lines, k + 1, d2),
            Err(m) => Err(m),
        }
    }
}

/// The manifest that a text denotes, or the error that reading it raises.
pub open spec fn manifest_of(text: Seq<char>) -> Result<ManifestModel, Seq<char>> {
    match manifest_lines(text_lines(text), 0, empty_draft()) {
        Err(m) => Err(m),
        Ok(d) => match d.name {
            None => Err("manifest is missing [package] name"@),
            Some(name) => match d.version {
                None => Err("manifest is missing [package] version"@),
                Some(version) => Ok(ManifestModel {
                    name,
                    version,
                    entry: match d.entry { Some(e) => e, None => "src/main.snp"@ },
                    dependencies: d.dependencies,
                }),
            },
        },
    }
}

pub open spec fn opt_text(o: Option<String>) -> Option<Seq<char>> {
    match o {
        Some(s) => Some(s@),
        None => None,
    }
}

/// The reader's state while it goes through a manifest's lines.
struct Draft {
    section: Vec<char>,
    name: Option<String>,
    version: Option<String>,
    entry: Option<String>,
    dependencies: Vec<Dependency>,
}

impl View for Draft {
    type V = ManifestDraft;

    closed spec fn view(&self) -> ManifestDraft {
        ManifestDraft {
            section: self.section@,
            name: opt_text(self.name),
            version: opt_text(self.version),
            entry: opt_text(self.entry),
            dependencies: dependency_map(self.dependencies@),
        }
    }
}

/// Adds or replaces the dependency named `key`, keeping the names sorted.
fn insert_dependency(deps: &mut Vec<Dependency>, key: String, value: String)
    requires
        sorted_by_name(old(deps)@),
    ensures
        sorted_by_name(final(deps)@),
        dependency_map(final(deps)@) == dependency_map(old(deps)@).insert(key@, value@),
{
    let ghost s = deps@;
    let mut p: usize = 0;
    while p < deps.len() && text_order(deps[p].name.as_str(), key.as_str()) == Order::Less
        invariant
            deps@ == s,
            sorted_by_name(s),
            p <= s.len(),
            forall|j: int| 0 <= j < p ==> text_lt(#[trigger] s[j].name@, key@),
        decreases deps.len() - p,
    {
        p += 1;
    }
    let o = if p < deps.len() { text_order(deps[p].name.as_str(), key.as_str()) } else { Order::Greater };
    let same = o == Order::Same;
    let ghost d = Dependency { name: key, source: value };
    proof {
        // every name after `p` lies beyond `key`, and so does the one at `p` unless it is `key`
        if p < s.len() && !same {
            assert(text_lt(key@, s[p as int].name@));
        }
        assert forall|j: int| p < j < s.len() implies text_lt(key@, #[trigger] s[j].name@) by {
            assert(text_lt(s[p as int].name@, s[j].name@));
            if !same {
                lemma_text_lt_transitive(key@, s[p as int].name@, s[j].name@);
            }
        }
    }
    if same {
        deps.set(p, Dependency { name: key, source: value });
        proof {
            let t = deps@;
            assert(t == s.update(p as int, d));
            assert(sorted_by_name(t)) by {
                assert forall|i: int, j: int| 0 <= i < j < t.len() implies text_lt(#[trigger] t[i].name@, #[trigger] t[j].name@) by {
                    if j == p {
                        assert(text_lt(s[i].name@, key@));
                    } else if i == p {
                        assert(text_lt(key@, s[j].name@));
                    } else {
                        assert(text_lt(s[i].name@, s[j].name@));
                    }
                }
            }
            assert(dependency_map(t) =~= dependency_map(s).insert(key@, value@)) by {
                lemma_dependency_entry(t, p as int);
                assert forall|x: Seq<char>| #[trigger] dependency_map(t).contains_key(x)
                    <==> dependency_map(s).insert(key@, value@).contains_key(x) by {
                    if dependency_map(t).contains_key(x) {
                        let j = choose|j: int| named_at(t, x, j);
                        if j != p {
                            assert(named_at(s, x, j));
                        }
                    }
                    if dependency_map(s).contains_key(x) && x != key@ {
                        let j = choose|j: int| named_at(s, x, j);
                        assert(j != p);
                        assert(named_at(t, x, j));
                    }
                }
                assert forall|x: Seq<char>| #[trigger] dependency_map(t).contains_key(x)
                    implies dependency_map(t)[x] == dependency_map(s).insert(key@, value@)[x] by {
                    if x != key@ {
                        let j = choose|j: int| named_at(t, x, j);
                        assert(j != p);
                        lemma_dependency_entry(t, j);
                        lemma_dependency_entry(s, j);
                    }
                }
            }
        }
    } else {
        deps.insert(p, Dependency { name: key, source: value });
        proof {
            let t = deps@;
            s.insert_ensures(p as int, d);
            assert(t.len() == s.len() + 1);
            assert forall|j: int| 0 <= j < p implies #[trigger] t[j] == s[j] by {}
            assert forall|j: int| p < j < t.len() implies #[trigger] t[j] == s[j - 1] by {
                assert(t[(j - 1) + 1] == s[j - 1]);
            }
            assert(t[p as int] == d);
            assert(sorted_by_name(t)) by {
                assert forall|i: int, j: int| 0 <= i < j < t.len() implies text_lt(#[trigger] t[i].name@, #[trigger] t[j].name@) by {
                    if j == p {
                        assert(text_lt(s[i].name@, key@));
                    } else if i == p {
                        assert(text_lt(key@, s[j - 1].name@));
                    } else if j < p {
                        assert(text_lt(s[i].name@, s[j].name@));
                    } else if i < p {
                        assert(text_lt(s[i].name@, s[j - 1].name@));
                    } else {
                        assert(text_lt(s[i - 1].name@, s[j - 1].name@));
                    }
                }
            }
            assert(dependency_map(t) =~= dependency_map(s).insert(key@, value@)) by {
                lemma_dependency_entry(t, p as int);
                assert forall|x: Seq<char>| #[trigger] dependency_map(t).contains_key(x)
                    <==> dependency_map(s).insert(key@, value@).contains_key(x) by {
                    if dependency_map(t).contains_key(x) {
                        let j = choose|j: int| named_at(t, x, j);
                        if j < p {
                            assert(named_at(s, x, j));
                        } else if j > p {
                            assert(named_at(s, x, j - 1));
                        }
                    }
                    if dependency_map(s).contains_key(x) {
                        let j = choose|j: int| named_at(s, x, j);
                        if j < p {
                            assert(named_at(t, x, j));
                        } else {
                            assert(named_at(t, x, j + 1));
                        }
                    }
                }
                assert forall|x: Seq<char>| #[trigger] dependency_map(t).contains_key(x)
                    implies dependency_map(t)[x] == dependency_map(s).insert(key@, value@)[x] by {
                    if x != key@ {
                        let j = choose|j: int| named_at(t, x, j);
                        assert(j != p);
                        lemma_dependency_entry(t, j);
                        if j < p {
                            lemma_dependency_entry(s, j);
                        } else {
                            lemma_dependency_entry(s, j - 1);
                        }
                    }
                }
            }
        }
    }
}

/// `prefix`, then the line number.
fn at_line(prefix: &str, n: usize) -> (m: String)
    ensures
        m@ == prefix@ + decimal(n as nat),
{
    let mut m = String::from_str(prefix);
    let d = decimal_string(n as u64);
    m.append(d.as_str());
    m
}

/// `prefix`, the quoted text, `suffix`, then the line number.
fn quoted_at_line(prefix: &str, quoted: &Vec<char>, suffix: &str, n: usize) -> (m: String)
    ensures
        m@ == prefix@ + quoted@ + suffix@ + decimal(n as nat),
{
    let mut m = String::from_str(prefix);
    let q = string_of(quoted.as_slice());
    m.append(q.as_str());
    m.append(suffix);
    let d = decimal_string(n as u64);
    m.append(d.as_str());
    m
}

impl Draft {
    fn new() -> (d: Draft)
        ensures
            d@ == empty_draft(),
            sorted_by_name(d.dependencies@),
    {
        let d = Draft { section: Vec::new(), name: None, version: None, entry: None, dependencies: Vec::new() };
        assert(d@.dependencies =~= Map::<Seq<char>, Seq<char>>::empty());
        assert(d@.section =~= Seq::<char>::empty());
        d
    }

    /// Reads line `n` of the manifest.
    fn read_line(&mut self, raw: &Vec<char>, n: usize) -> (r: Result<(), String>)
        requires
            sorted_by_name(old(self).dependencies@),
        ensures
            sorted_by_name(final(self).dependencies@),
            match manifest_line(old(self)@, raw@, n as nat) {
                Ok(d) => r is Ok && final(self)@ == d,
                Err(m) => r is Err && r->Err_0@ == m,
            },
    {
        let hash = index_of(raw, '#', 0);
        let before = slice_chars(raw, 0, hash);
        let line = strip(&before, false);
        assert(line@ == line_content(raw@));
        if line.len() == 0 {
            return Ok(());
        }
        if line[0] == '[' && line[line.len() - 1] == ']' {
            let inner = slice_chars(&line, 1, line.len() - 1);
            let s = strip(&inner, false);
            if same_chars(s.as_slice(), chars_of("package").as_slice())
                || same_chars(s.as_slice(), chars_of("dependencies").as_slice()) {
                self.section = s;
                return Ok(());
            }
            return Err(quoted_at_line("unknown manifest section `", &s, "` at line ", n));
        }
        let e = index_of(&line, '=', 0);
        if e == line.len() {
            return Err(at_line("expected key = value at manifest line ", n));
        }
        let key = strip(&slice_chars(&line, 0, e), false);
        let rest = slice_chars(&line, e + 1, line.len());
        assert(rest@ == line@.skip(e + 1));
        let value = strip(&strip(&rest, false), true);
        if same_chars(self.section.as_slice(), chars_of("package").as_slice()) {
            if same_chars(key.as_slice(), chars_of("name").as_slice()) {
                self.name = Some(string_of(value.as_slice()));
                Ok(())
            } else if same_chars(key.as_slice(), chars_of("version").as_slice()) {
                self.version = Some(string_of(value.as_slice()));
                Ok(())
            } else if same_chars(key.as_slice(), chars_of("entry").as_slice()) {
                self.entry = Some(string_of(value.as_slice()));
                Ok(())
            } else {
                Err(quoted_at_line("unknown package field `", &key, "` at line ", n))
            }
        } else if same_chars(self.section.as_slice(), chars_of("dependencies").as_slice()) {
            if key.len() == 0 || value.len() == 0 {
                Err(at_line("invalid dependency at line ", n))
            } else {
                insert_dependency(&mut self.dependencies, string_of(key.as_slice()), string_of(value.as_slice()));
                Ok(())
            }
        } else {
            Err(at_line("manifest field outside a section at line ", n))
        }
    }
}

impl Manifest {
    /// The dependency declared under `name`.
    pub fn dependency(&self, name: &str) -> (r: Option<&Dependency>)
        ensures
            r is Some <==> self@.dependencies.contains_key(name@),
            r is Some ==> r->0.name@ == name@,
            r is Some && sorted_by_name(self.dependencies@) ==> r->0.source@ == self@.dependencies[name@],
    {
        let deps = &self.dependencies;
        let mut i: usize = 0;
        while i < deps.len()
            invariant
                deps == &self.dependencies,
                i <= deps.len(),
                forall|k: int| 0 <= k < i ==> deps@[k].name@ != name@,
            decreases deps.len() - i,
        {
            if same_text(deps[i].name.as_str(), name) {
                assert(named_at(deps@, name@, i as int));
                proof {
                    if sorted_by_name(deps@) {
                        lemma_dependency_entry(deps@, i as int);
                    }
                }
                return Some(&deps[i]);
            }
            i += 1;
        }
        None
    }

    /// Reads a manifest. On success the dependencies are sorted by name.
    pub fn parse(text: &str) -> (res: Result<Manifest, String>)
        ensures
            match manifest_of(text@) {
                Ok(m) => res is Ok && res->Ok_0@ == m && sorted_by_name(res->Ok_0.dependencies@),
                Err(e) => res is Err && res->Err_0@ == e,
            },
    {
        let t = chars_of(text);
        let ghost lines = text_lines(t@);
        let mut d = Draft::new();
        let mut i: usize = 0;
        let mut n: usize = 0;
        let ghost mut done: Seq<Seq<char>> = seq![];
        assert(lines == done + lines_from(t@, 0));
        while i < t.len()
            invariant
                t@ == text@,
                lines == text_lines(t@),
                i <= t.len(),
                n == done.len(),
                n <= i,
                lines == done + lines_from(t@, i as int),
                sorted_by_name(d.dependencies@),
                manifest_lines(lines, n as int, d@) == manifest_lines(lines, 0, empty_draft()),
            decreases t.len() - i,
        {
            let (e, next) = line_end(&t, i);
            let raw = slice_chars(&t, i, e);
            proof {
                let rest = lines_from(t@, next as int);
                assert(lines_from(t@, i as int) =~= seq![raw@] + rest);
                assert(lines =~= done.push(raw@) + rest);
                assert(lines[n as int] == raw@);
            }
            match d.read_line(&raw, n + 1) {
                Ok(()) => {},
                Err(m) => {
                    return Err(m);
                },
            }
            proof {
                done = done.push(raw@);
            }
            i = next;
            n += 1;
        }
        assert(lines =~= done);
        let name = match d.name {
            Some(x) => x,
            None => {
                return Err(String::from_str("manifest is missing [package] name"));
            },
        };
        let version = match d.version {
            Some(x) => x,
            None => {
                return Err(String::from_str("manifest is missing [package] version"));
            },
        };
        let entry = match d.entry {
            Some(x) => x,
            None => String::from_str("src/main.snp"),
        };
        Ok(Manifest { name, version, entry, dependencies: d.dependencies })
    }
}

/// An import that names the standard library.
pub open spec fn is_std_import(s: Seq<char>) -> bool {
    has_prefix(s, "std."@)
}

/// The standard-library imports, in order.
pub open spec fn std_imports(imports: Seq<Seq<char>>) -> Seq<Seq<char>> {
    imports.filter(|s: Seq<char>| is_std_import(s))
}

/// The package namespace of an import: the text before its first `.`.
pub open spec fn import_root(s: Seq<char>) -> Seq<char> {
    s.take(find_char(s, '.', 0))
}

/// The namespace of an import is the text before its first `.`: it begins
/// the import, holds no `.`, and is either the whole import or followed by a `.`.
pub proof fn law_import_root(s: Seq<char>)
    ensures
        import_root(s).len() <= s.len(),
        s.subrange(0, import_root(s).len() as int) == import_root(s),
        forall|k: int| 0 <= k < import_root(s).len() ==> import_root(s)[k] != '.',
        import_root(s).len() == s.len() || s[import_root(s).len() as int] == '.',
{
    lemma_find_char_range(s, '.', 0);
    let r = import_root(s);
    assert(s.subrange(0, r.len() as int) =~= r);
    assert forall|k: int| 0 <= k < r.len() implies r[k] != '.' by {
        assert(r[k] == s[k]);
    }
}

/// An import `a.rest` whose first part `a` holds no `.` has namespace `a`,
/// however many dots `rest` holds.
pub proof fn law_import_root_of_dotted(a: Seq<char>, rest: Seq<char>)
    requires
        forall|k: int| 0 <= k < a.len() ==> a[k] != '.',
    ensures
        import_root(a + seq!['.'] + rest) == a,
{
    let s = a + seq!['.'] + rest;
    lemma_find_char_range(s, '.', 0);
    let f = find_char(s, '.', 0);
    assert(s[a.len() as int] == '.');
    if f > a.len() {
        assert(s[a.len() as int] != '.');
    }
    if f < a.len() {
        assert(s[f] == a[f]);
    }
    assert(f == a.len());
    assert(s.take(f) =~= a);
}

/// The first import from `i` on that is not a standard-library import and
/// whose namespace is not a declared dependency.
pub open spec fn first_undeclared(imports: Seq<Seq<char>>, deps: Map<Seq<char>, Seq<char>>, i: int) -> Option<Seq<char>>
    decreases imports.len() - i,
{
    if !(0 <= i < imports.len()) {
        None
    } else if !is_std_import(imports[i]) && !deps.contains_key(import_root(imports[i])) {
        Some(imports[i])
    } else {
        first_undeclared(imports, deps, i + 1)
    }
}

pub open spec fn namespace_message(import: Seq<char>) -> Seq<char> {
    "unknown package namespace `"@ + import_root(import) + "` in import `"@ + import
        + "`; add it to [dependencies]"@
}

/// How a program's imports are judged against a manifest: the standard-library
/// imports first, as the resolver judges them, then every other import's namespace.
pub open spec fn import_validation(imports: Seq<Seq<char>>, deps: Map<Seq<char>, Seq<char>>) -> Result<(), Seq<char>> {
    match resolution(std_imports(imports)) {
        Err(m) => Err(m),
        Ok(_) => match first_undeclared(imports, deps, 0) {
            Some(x) => Err(namespace_message(x)),
            None => Ok(()),
        },
    }
}

/// An import `a.rest` that does not name the standard library is accepted
/// whenever `a`, its text before the first `.`, is a declared dependency.
pub proof fn law_dotted_import_accepted(a: Seq<char>, rest: Seq<char>, deps: Map<Seq<char>, Seq<char>>)
    requires
        forall|k: int| 0 <= k < a.len() ==> a[k] != '.',
        !is_std_import(a + seq!['.'] + rest),
        deps.contains_key(a),
    ensures
        import_validation(seq![a + seq!['.'] + rest], deps) == Ok::<(), Seq<char>>(()),
{
    let x = a + seq!['.'] + rest;
    law_import_root_of_dotted(a, rest);
    reveal_with_fuel(Seq::filter, 2);
    let imports = seq![x];
    assert(imports.drop_last() =~= Seq::<Seq<char>>::empty());
    assert(imports.last() == x);
    assert(std_imports(imports) =~= Seq::<Seq<char>>::empty());
    lemma_first_unknown(std_imports(imports), 0);
    assert(first_undeclared(imports, deps, 1) is None);
}

/// Whether the manifest declares a dependency of that name.
fn declares(manifest: &Manifest, name: &str) -> (r: bool)
    ensures
        r == manifest@.dependencies.contains_key(name@),
{
    let deps = &manifest.dependencies;
    let mut i: usize = 0;
    while i < deps.len()
        invariant
            deps == &manifest.dependencies,
            i <= deps.len(),
            forall|k: int| 0 <= k < i ==> deps@[k].name@ != name@,
        decreases deps.len() - i,
    {
        if same_text(deps[i].name.as_str(), name) {
            assert(named_at(deps@, name@, i as int));
            return true;
        }
        i += 1;
    }
    false
}

/// Checks a program's imports: standard-library imports must name known
/// modules, and every other import must start with a declared dependency.
pub fn validate_imports(imports: &[String], manifest: &Manifest) -> (res: Result<(), String>)
    ensures
        match import_validation(strings_model(imports@), manifest@.dependencies) {
            Ok(_) => res is Ok,
            Err(m) => res is Err && res->Err_0@ == m,
        },
        res is Ok <==> (forall|k: int| 0 <= k < imports@.len() ==> {
            let s = #[trigger] imports@[k]@;
            if is_std_import(s) { is_std_module(s) } else { manifest@.dependencies.contains_key(import_root(s)) }
        }),
{
    let ghost names = strings_model(imports@);
    let ghost pred = |s: Seq<char>| is_std_import(s);
    let std_prefix = chars_of("std.");
    let mut chosen: Vec<String> = Vec::new();
    let mut i: usize = 0;
    while i < imports.len()
        invariant
            names == strings_model(imports@),
            pred == (|s: Seq<char>| is_std_import(s)),
            std_prefix@ == "std."@,
            i <= imports@.len(),
            strings_model(chosen@) == names.take(i as int).filter(pred),
        decreases imports.len() - i,
    {
        let is_std = starts_with(chars_of(imports[i].as_str()).as_slice(), std_prefix.as_slice());
        proof {
            reveal(Seq::filter);
            assert(names[i as int] == imports@[i as int]@);
            assert(names.take(i + 1).drop_last() =~= names.take(i as int));
            assert(names.take(i + 1).last() == names[i as int]);
            assert(is_std == is_std_import(names[i as int]));
            assert(pred(names[i as int]) == is_std_import(names[i as int]));
            assert(names.take(i + 1).filter(pred) == if pred(names[i as int]) {
                names.take(i as int).filter(pred).push(names[i as int])
            } else {
                names.take(i as int).filter(pred)
            });
        }
        if is_std {
            chosen.push(imports[i].clone());
            assert(strings_model(chosen@) =~= names.take(i as int).filter(pred).push(imports@[i as int]@));
        }
        i += 1;
    }
    assert(names.take(imports@.len() as int) =~= names);
    let resolved = resolve(chosen.as_slice());
    proof {
        assert(forall|k: int| 0 <= k < names.len() ==> #[trigger] names[k] == imports@[k]@);
        assert(forall|k: int| 0 <= k < chosen@.len() ==> #[trigger] chosen@[k]@ == names.filter(pred)[k]);
    }
    match resolved {
        Err(m) => {
            proof {
                let k = choose|k: int| 0 <= k < chosen@.len() && !is_std_module(#[trigger] chosen@[k]@);
                let x = names.filter(pred)[k];
                assert(names.filter(pred).contains(x));
                names.lemma_filter_contains_rev(pred, x);
                names.lemma_filter_pred(pred, k);
                let j = choose|j: int| 0 <= j < names.len() && names[j] == x;
                assert(imports@[j]@ == x);
            }
            return Err(m);
        },
        Ok(()) => {},
    }
    proof {
        assert forall|k: int| 0 <= k < names.len() && is_std_import(names[k]) implies is_std_module(names[k]) by {
            names.lemma_filter_contains(pred, k);
            let j = choose|j: int| 0 <= j < names.filter(pred).len() && names.filter(pred)[j] == names[k];
            assert(chosen@[j]@ == names[k]);
        }
    }
    let mut i: usize = 0;
    while i < imports.len()
        invariant
            names == strings_model(imports@),
            std_prefix@ == "std."@,
            i <= imports@.len(),
            resolution(std_imports(names)) is Ok,
            first_undeclared(names, manifest@.dependencies, i as int) == first_undeclared(names, manifest@.dependencies, 0),
            forall|k: int| 0 <= k < i && !is_std_import(names[k]) ==> manifest@.dependencies.contains_key(import_root(#[trigger] names[k])),
        decreases imports.len() - i,
    {
        let text = chars_of(imports[i].as_str());
        assert(text@ == names[i as int]);
        if !starts_with(text.as_slice(), std_prefix.as_slice()) {
            let dot = index_of(&text, '.', 0);
            let root = string_of(slice_chars(&text, 0, dot).as_slice());
            if !declares(manifest, root.as_str()) {
                assert(root@ == import_root(imports@[i as int]@));
                let mut m = String::from_str("unknown package namespace `");
                m.append(root.as_str());
                m.append("` in import `");
                m.append(imports[i].as_str());
                m.append("`; add it to [dependencies]");
                return Err(m);
            }
        }
        i += 1;
    }
    assert forall|k: int| 0 <= k < imports@.len() implies {
        let s = #[trigger] imports@[k]@;
        if is_std_import(s) { is_std_module(s) } else { manifest@.dependencies.contains_key(import_root(s)) }
    } by {
        assert(names[k] == imports@[k]@);
    }
    Ok(())
}

/// What the caller found on disk for one declared dependency.
#[derive(Debug, Clone, PartialEq)]
pub enum DependencyState {
    /// No directory at the dependency's path.
    Missing,
    /// The directory holds no `snp.toml`.
    NoManifest,
    /// `snp.toml` is there but could not be read; the message says why.
    Unreadable(String),
    /// The text of the dependency's `snp.toml`.
    Found(String),
}

/// A declared dependency's path, as displayed, and what was found there.
#[derive(Debug, Clone, PartialEq)]
pub struct LocalDependency {
    pub path: String,
    pub state: DependencyState,
}

pub open spec fn prefixed(p: Seq<Seq<char>>, r: Result<Seq<Seq<char>>, Seq<char>>) -> Result<Seq<Seq<char>>, Seq<char>> {
    match r {
        Ok(rest) => Ok(p + rest),
        Err(e) => Err(e),
    }
}

/// Resolution of the dependencies from `i` on, each checked against what was
/// found for it: the paths in order, or the first problem.
pub open spec fn local_resolution(deps: Seq<Dependency>, found: Seq<LocalDependency>, i: int) -> Result<Seq<Seq<char>>, Seq<char>>
    decreases deps.len() - i,
{
    if !(0 <= i < deps.len()) {
        Ok(seq![])
    } else {
        let name = deps[i].name@;
        let path = found[i].path@;
        match found[i].state {
            DependencyState::Missing => Err("dependency `"@ + name + "` path does not exist: "@ + path),
            DependencyState::NoManifest => Err("dependency `"@ + name + "` has no snp.toml: "@ + path),
            DependencyState::Unreadable(m) => Err(m@),
            DependencyState::Found(text) => match manifest_of(text@) {
                Err(m) => Err(m),
                Ok(dep) => if dep.name != name {
                    Err("dependency `"@ + name + "` resolves to package `"@ + dep.name + "`"@)
                } else {
                    prefixed(seq![path], local_resolution(deps, found, i + 1))
                },
            },
        }
    }
}

proof fn lemma_prefixed(a: Seq<Seq<char>>, b: Seq<Seq<char>>, r: Result<Seq<Seq<char>>, Seq<char>>)
    ensures
        prefixed(a, prefixed(b, r)) == prefixed(a + b, r),
{
    match r {
        Ok(rest) => {
            assert(a + (b + rest) =~= (a + b) + rest);
        },
        Err(_) => {},
    }
}

/// Checks the manifest's dependencies, in name order, against what was found
/// for each (`found[k]` for the `k`-th), and gives their paths.
pub fn resolve_local(manifest: &Manifest, found: &[LocalDependency]) -> (res: Result<Vec<String>, String>)
    requires
        found@.len() == manifest.dependencies@.len(),
    ensures
        match local_resolution(manifest.dependencies@, found@, 0) {
            Ok(p) => res is Ok && strings_model(res->Ok_0@) == p,
            Err(e) => res is Err && res->Err_0@ == e,
        },
        res is Ok ==> res->Ok_0@.len() == found@.len()
            && forall|k: int| 0 <= k < found@.len() ==> #[trigger] res->Ok_0@[k]@ == found@[k].path@,
{
    let deps = &manifest.dependencies;
    let mut out: Vec<String> = Vec::new();
    let mut i: usize = 0;
    while i < deps.len()
        invariant
            deps == &manifest.dependencies,
            found@.len() == deps@.len(),
            i <= deps.len(),
            out@.len() == i,
            forall|k: int| 0 <= k < i ==> #[trigger] out@[k]@ == found@[k].path@,
            local_resolution(deps@, found@, 0) == prefixed(strings_model(out@), local_resolution(deps@, found@, i as int)),
        decreases deps.len() - i,
    {
        let name = deps[i].name.as_str();
        let path = found[i].path.as_str();
        match &found[i].state {
            DependencyState::Missing => {
                let mut m = String::from_str("dependency `");
                m.append(name);
                m.append("` path does not exist: ");
                m.append(path);
                return Err(m);
            },
            DependencyState::NoManifest => {
                let mut m = String::from_str("dependency `");
                m.append(name);
                m.append("` has no snp.toml: ");
                m.append(path);
                return Err(m);
            },
            DependencyState::Unreadable(e) => {
                return Err(e.clone());
            },
            DependencyState::Found(text) => {
                match Manifest::parse(text.as_str()) {
                    Err(e) => {
                        return Err(e);
                    },
                    Ok(dep) => {
                        if !same_text(dep.name.as_str(), name) {
                            let mut m = String::from_str("dependency `");
                            m.append(name);
                            m.append("` resolves to package `");
                            m.append(dep.name.as_str());
                            m.append("`");
                            return Err(m);
                        }
                        assert(local_resolution(deps@, found@, i as int)
                            == prefixed(seq![found@[i as int].path@], local_resolution(deps@, found@, i + 1)));
                    },
                }
            },
        }
        proof {
            lemma_prefixed(strings_model(out@), seq![found@[i as int].path@], local_resolution(deps@, found@, i + 1));
        }
        let ghost before = out@;
        out.push(found[i].path.clone());
        assert(strings_model(out@) =~= strings_model(before) + seq![found@[i as int].path@]);
        i += 1;
    }
    assert(strings_model(out@) + seq![] =~= strings_model(out@));
    Ok(out)
}

/// The manifest `snp init` writes for a new package.
pub open spec fn starter_manifest_text(name: Seq<char>) -> Seq<char> {
    "[package]\nname = \""@ + name + "\"\nversion = \"0.1.0\"\nentry = \"src/main.snp\"\n\n[dependencies]\n"@
}

/// The manifest of a new package called `name`.
pub fn starter_manifest(name: &str) -> (s: String)
    ensures
        s@ == starter_manifest_text(name@),
{
    let mut s = String::from_str("[package]\nname = \"");
    s.append(name);
    s.append("\"\nversion = \"0.1.0\"\nentry = \"src/main.snp\"\n\n[dependencies]\n");
    s
}

/// The entry file `snp init` writes for a new package.
pub const STARTER_ENTRY: &'static str = "fn main() {\n    print(\"Hello from S+N++\");\n}\n";

/// The lines of the starter manifest.
pub open spec fn starter_lines(name: Seq<char>) -> Seq<Seq<char>> {
    seq![
        "[package]"@,
        "name"@ + " = \""@ + name + "\""@,
        "version"@ + " = \""@ + "0.1.0"@ + "\""@,
        "entry"@ + " = \""@ + "src/main.snp"@ + "\""@,
        seq![],
        "[dependencies]"@,
    ]
}

/// A name that a manifest line reads back as it is: no line break or `#` in
/// it, and no quote at either end.
pub open spec fn plain_name(name: Seq<char>) -> bool {
    &&& forall|k: int| 0 <= k < name.len() ==> name[k] != '\n' && name[k] != '#'
    &&& name.len() > 0 ==> name[0] != '"' && name.last() != '"'
}

pub open spec fn with_section(d: ManifestDraft, s: Seq<char>) -> ManifestDraft {
    ManifestDraft { section: s, name: d.name, version: d.version, entry: d.entry, dependencies: d.dependencies }
}

/// A line with no comment and no whitespace at its ends is its own content.
proof fn lemma_bare_line(raw: Seq<char>)
    requires
        raw.len() > 0,
        find_char(raw, '#', 0) == raw.len(),
        !is_space(raw[0]),
        !is_space(raw.last()),
    ensures
        line_content(raw) == raw,
{
    assert(raw.take(raw.len() as int) =~= raw);
    assert(raw.subrange(0, raw.len() as int) =~= raw);
}

proof fn lemma_header_line(d: ManifestDraft, raw: Seq<char>, s: Seq<char>, n: nat)
    requires
        raw.len() > 2,
        find_char(raw, '#', 0) == raw.len(),
        raw[0] == '[',
        raw.last() == ']',
        raw.subrange(1, raw.len() - 1) == s,
        !is_space(s[0]),
        !is_space(s.last()),
        s == "package"@ || s == "dependencies"@,
    ensures
        manifest_line(d, raw, n) == Ok::<ManifestDraft, Seq<char>>(with_section(d, s)),
{
    lemma_bare_line(raw);
    assert(s.subrange(0, s.len() as int) =~= s);
}

/// The line `key = "value"`.
pub open spec fn setting_line(key: Seq<char>, value: Seq<char>) -> Seq<char> {
    key + " = \""@ + value + "\""@
}

/// A key that a manifest line reads back as it is: not empty, no `=`, `#` or
/// line break in it, and no whitespace at either end.
pub open spec fn plain_key(key: Seq<char>) -> bool {
    &&& key.len() > 0
    &&& forall|k: int| 0 <= k < key.len() ==> key[k] != '=' && key[k] != '#' && key[k] != '\n'
    &&& !is_space(key[0])
    &&& !is_space(key.last())
}

/// How `key = "value"` splits into its key and its value.
proof fn lemma_setting_line_parts(key: Seq<char>, value: Seq<char>)
    requires
        plain_key(key),
        plain_name(value),
    ensures
        line_content(setting_line(key, value)) == setting_line(key, value),
        !is_section_header(setting_line(key, value)),
        find_char(setting_line(key, value), '=', 0) == key.len() + 1,
        find_char(setting_line(key, value), '=', 0) < setting_line(key, value).len(),
        trimmed(setting_line(key, value).take(key.len() as int + 1)) == key,
        stripped(trimmed(setting_line(key, value).skip(key.len() as int + 2)), true) == value,
{
    reveal_strlit(" = \"");
    reveal_strlit("\"");
    let raw = setting_line(key, value);
    let k = key.len() as int;
    // no `#` and one `=`, right after the key and a space
    assert forall|i: int| 0 <= i < raw.len() implies raw[i] != '#' && (raw[i] == '=' ==> i >= k + 1) by {
        if i < k {
            assert(raw[i] == key[i]);
        } else if i >= k + 4 && i < raw.len() - 1 {
            assert(raw[i] == value[i - k - 4]);
        }
    }
    lemma_find_char_range(raw, '#', 0);
    lemma_find_char_range(raw, '=', 0);
    assert(raw[k + 1] == '=');
    assert(find_char(raw, '=', 0) == k + 1);
    assert(raw[0] == key[0]);
    lemma_bare_line(raw);
    // the key
    let left = raw.take(k + 1);
    assert(left =~= key.push(' '));
    reveal_with_fuel(skip_back, 3);
    assert(trimmed(left) =~= key);
    // the value
    let right = raw.skip(k + 2);
    assert(right =~= seq![' ', '"'] + value + seq!['"']);
    reveal_with_fuel(skip_front, 3);
    let quoted = seq!['"'] + value + seq!['"'];
    assert(trimmed(right) =~= quoted);
    if value.len() == 0 {
        assert(quoted =~= seq!['"', '"']);
        assert(stripped(quoted, true) =~= value);
    } else {
        assert(quoted[1] == value[0]);
        assert(quoted[quoted.len() - 2] == value.last());
        assert(stripped(quoted, true) =~= value);
    }
}

/// A line `key = "value"` sets what it names to `value`, whatever an earlier
/// line set it to: under `[dependencies]` the dependency named `key` (the
/// value must not be empty), under `[package]` the name, version or entry.
pub proof fn law_setting_line(d: ManifestDraft, key: Seq<char>, value: Seq<char>, n: nat)
    requires
        plain_key(key),
        plain_name(value),
    ensures
        d.section == "dependencies"@ && value.len() > 0 ==> manifest_line(d, setting_line(key, value), n)
            == Ok::<ManifestDraft, Seq<char>>(ManifestDraft {
                section: d.section,
                name: d.name,
                version: d.version,
                entry: d.entry,
                dependencies: d.dependencies.insert(key, value),
            }),
        d.section == "package"@ && key == "name"@ ==> manifest_line(d, setting_line(key, value), n)
            == Ok::<ManifestDraft, Seq<char>>(ManifestDraft {
                section: d.section, name: Some(value), version: d.version, entry: d.entry, dependencies: d.dependencies,
            }),
        d.section == "package"@ && key == "version"@ ==> manifest_line(d, setting_line(key, value), n)
            == Ok::<ManifestDraft, Seq<char>>(ManifestDraft {
                section: d.section, name: d.name, version: Some(value), entry: d.entry, dependencies: d.dependencies,
            }),
        d.section == "package"@ && key == "entry"@ ==> manifest_line(d, setting_line(key, value), n)
            == Ok::<ManifestDraft, Seq<char>>(ManifestDraft {
                section: d.section, name: d.name, version: d.version, entry: Some(value), dependencies: d.dependencies,
            }),
{
    reveal_strlit("name");
    reveal_strlit("version");
    reveal_strlit("entry");
    reveal_strlit("package");
    reveal_strlit("dependencies");
    lemma_setting_line_parts(key, value);
    let raw = setting_line(key, value);
    let e = find_char(raw, '=', 0);
    assert(e == key.len() + 1);
    assert(raw.take(e) == raw.take(key.len() as int + 1));
    assert(raw.skip(e + 1) == raw.skip(key.len() as int + 2));
    assert("dependencies"@.len() != "package"@.len());
}

/// A blank line, or one holding only a comment, changes nothing.
pub proof fn law_blank_line(d: ManifestDraft, spaces: Seq<char>, comment: Seq<char>, n: nat)
    requires
        forall|k: int| 0 <= k < spaces.len() ==> is_space(#[trigger] spaces[k]),
    ensures
        line_content(spaces).len() == 0,
        line_content(spaces + seq!['#'] + comment).len() == 0,
        manifest_line(d, spaces, n) == Ok::<ManifestDraft, Seq<char>>(d),
        manifest_line(d, spaces + seq!['#'] + comment, n) == Ok::<ManifestDraft, Seq<char>>(d),
{
    lemma_all_space(spaces, 0);
    lemma_find_char_range(spaces, '#', 0);
    assert(spaces.take(spaces.len() as int) =~= spaces);
    let raw = spaces + seq!['#'] + comment;
    lemma_find_char_range(raw, '#', 0);
    assert(raw[spaces.len() as int] == '#');
    assert(forall|k: int| 0 <= k < spaces.len() ==> raw[k] == spaces[k]);
    assert(raw.take(spaces.len() as int) =~= spaces);
}

/// Whitespace alone trims to nothing.
proof fn lemma_all_space(s: Seq<char>, i: int)
    requires
        0 <= i <= s.len(),
        forall|k: int| 0 <= k < s.len() ==> is_space(#[trigger] s[k]),
    ensures
        skip_front(s, i, false) == s.len(),
        trimmed(s).len() == 0,
    decreases s.len() - i,
{
    if i < s.len() {
        lemma_all_space(s, i + 1);
    } else {
        lemma_all_space_from(s, 0);
    }
}

proof fn lemma_all_space_from(s: Seq<char>, i: int)
    requires
        0 <= i <= s.len(),
        forall|k: int| 0 <= k < s.len() ==> is_space(#[trigger] s[k]),
    ensures
        skip_front(s, i, false) == s.len(),
    decreases s.len() - i,
{
    if i < s.len() {
        lemma_all_space_from(s, i + 1);
    }
}

/// A line that is read without error gives the same result whatever its number.
proof fn lemma_line_number_irrelevant(d: ManifestDraft, raw: Seq<char>, n: nat, m: nat)
    requires
        manifest_line(d, raw, n) is Ok,
    ensures
        manifest_line(d, raw, m) == manifest_line(d, raw, n),
{
}

/// Reading equal runs of lines from equal states gives the same draft.
proof fn lemma_lines_same(a: Seq<Seq<char>>, i: int, b: Seq<Seq<char>>, j: int, d: ManifestDraft)
    requires
        0 <= i <= a.len(),
        0 <= j <= b.len(),
        a.skip(i) == b.skip(j),
        manifest_lines(a, i, d) is Ok,
    ensures
        manifest_lines(b, j, d) == manifest_lines(a, i, d),
    decreases a.len() - i,
{
    assert(a.skip(i).len() == b.skip(j).len());
    assert(a.skip(i).len() == a.len() - i);
    assert(b.skip(j).len() == b.len() - j);
    if i < a.len() {
        assert(a.skip(i)[0] == b.skip(j)[0]);
        assert(a.skip(i) == a.subrange(i, a.len() as int));
        assert(b.skip(j) == b.subrange(j, b.len() as int));
        assert(a.skip(i).len() == a.len() - i);
        assert(b.skip(j).len() == b.len() - j);
        assert(j < b.len());
        assert(a.subrange(i, a.len() as int)[0] == a[i]);
        assert(b.subrange(j, b.len() as int)[0] == b[j]);
        assert(a[i] == b[j]);
        lemma_line_number_irrelevant(d, a[i], (i + 1) as nat, (j + 1) as nat);
        if let Ok(d2) = manifest_line(d, a[i], (i + 1) as nat) {
            assert(a.skip(i + 1) =~= a.skip(i).drop_first());
            assert(b.skip(j + 1) =~= b.skip(j).drop_first());
            lemma_lines_same(a, i + 1, b, j + 1, d2);
        }
    }
}

proof fn lemma_insert_blank(a: Seq<Seq<char>>, p: int, raw: Seq<char>, k: int, d: ManifestDraft)
    requires
        0 <= k <= p <= a.len(),
        line_content(raw).len() == 0,
        manifest_lines(a, k, d) is Ok,
    ensures
        manifest_lines(a.take(p) + seq![raw] + a.skip(p), k, d) == manifest_lines(a, k, d),
    decreases p - k,
{
    let b = a.take(p) + seq![raw] + a.skip(p);
    if k < p {
        assert(b[k] == a[k]);
        if let Ok(d2) = manifest_line(d, a[k], (k + 1) as nat) {
            lemma_insert_blank(a, p, raw, k + 1, d2);
        }
    } else {
        assert(b[p] == raw);
        assert(manifest_line(d, raw, (p + 1) as nat) == Ok::<ManifestDraft, Seq<char>>(d));
        assert(a.skip(p) =~= b.skip(p + 1));
        lemma_lines_same(a, p, b, p + 1, d);
    }
}

/// Putting a blank or comment line anywhere into a manifest that reads
/// without error changes nothing that it reads as.
pub proof fn law_blank_line_inserted(a: Seq<Seq<char>>, p: int, raw: Seq<char>)
    requires
        0 <= p <= a.len(),
        line_content(raw).len() == 0,
        manifest_lines(a, 0, empty_draft()) is Ok,
    ensures
        manifest_lines(a.take(p) + seq![raw] + a.skip(p), 0, empty_draft()) == manifest_lines(a, 0, empty_draft()),
{
    lemma_insert_blank(a, p, raw, 0, empty_draft());
}

/// Reading one more line goes on from what the earlier lines gave: so a
/// later line overrides what an earlier one set.
pub proof fn law_lines_read_in_order(a: Seq<Seq<char>>, raw: Seq<char>, d: ManifestDraft)
    ensures
        manifest_lines(a.push(raw), 0, d) == match manifest_lines(a, 0, d) {
            Ok(d2) => manifest_line(d2, raw, (a.len() + 1) as nat),
            Err(e) => Err(e),
        },
{
    lemma_lines_push(a, raw, 0, d);
}

proof fn lemma_lines_push(a: Seq<Seq<char>>, raw: Seq<char>, k: int, d: ManifestDraft)
    requires
        0 <= k <= a.len(),
    ensures
        manifest_lines(a.push(raw), k, d) == match manifest_lines(a, k, d) {
            Ok(d2) => manifest_line(d2, raw, (a.len() + 1) as nat),
            Err(e) => Err(e),
        },
    decreases a.len() - k,
{
    let b = a.push(raw);
    if k < a.len() {
        assert(b[k] == a[k]);
        if let Ok(d2) = manifest_line(d, a[k], (k + 1) as nat) {
            lemma_lines_push(a, raw, k + 1, d2);
        }
    } else {
        assert(b[k] == raw);
        let r = manifest_line(d, raw, (a.len() + 1) as nat);
        if let Ok(d2) = r {
            assert(manifest_lines(b, k + 1, d2) == Ok::<ManifestDraft, Seq<char>>(d2));
        }
    }
}

/// `key = "value"` for a key of the `[package]` table.
proof fn lemma_field_line(d: ManifestDraft, key: Seq<char>, value: Seq<char>, n: nat)
    requires
        d.section == "package"@,
        key == "name"@ || key == "version"@ || key == "entry"@,
        plain_name(value),
    ensures
        manifest_line(d, key + " = \""@ + value + "\""@, n) == Ok::<ManifestDraft, Seq<char>>(
            if key == "name"@ {
                ManifestDraft { section: d.section, name: Some(value), version: d.version, entry: d.entry, dependencies: d.dependencies }
            } else if key == "version"@ {
                ManifestDraft { section: d.section, name: d.name, version: Some(value), entry: d.entry, dependencies: d.dependencies }
            } else {
                ManifestDraft { section: d.section, name: d.name, version: d.version, entry: Some(value), dependencies: d.dependencies }
            },
        ),
{
    reveal_strlit("name");
    reveal_strlit("version");
    reveal_strlit("entry");
    assert("name"@ =~= seq!['n', 'a', 'm', 'e']);
    assert("version"@ =~= seq!['v', 'e', 'r', 's', 'i', 'o', 'n']);
    assert("entry"@ =~= seq!['e', 'n', 't', 'r', 'y']);
    assert(plain_key(key));
    law_setting_line(d, key, value, n);
}

#[verifier::spinoff_prover]
#[verifier::rlimit(50)]
proof fn lemma_starter_text(name: Seq<char>)
    ensures
        starter_manifest_text(name) == joined_lines(starter_lines(name)),
{
    reveal_strlit("[package]\nname = \"");
    reveal_strlit("\"\nversion = \"0.1.0\"\nentry = \"src/main.snp\"\n\n[dependencies]\n");
    reveal_strlit("[package]");
    reveal_strlit("name");
    reveal_strlit("version");
    reveal_strlit("entry");
    reveal_strlit(" = \"");
    reveal_strlit("\"");
    reveal_strlit("0.1.0");
    reveal_strlit("src/main.snp");
    reveal_strlit("[dependencies]");
    let ls = starter_lines(name);
    let nl = seq!['\n'];
    let r1 = seq![ls[1], ls[2], ls[3], ls[4], ls[5]];
    let r2 = seq![ls[2], ls[3], ls[4], ls[5]];
    let r3 = seq![ls[3], ls[4], ls[5]];
    let r4 = seq![ls[4], ls[5]];
    let r5 = seq![ls[5]];
    assert(ls.drop_first() =~= r1);
    assert(r1.drop_first() =~= r2);
    assert(r2.drop_first() =~= r3);
    assert(r3.drop_first() =~= r4);
    assert(r4.drop_first() =~= r5);
    assert(r5.drop_first() =~= Seq::<Seq<char>>::empty());
    assert(joined_lines(Seq::<Seq<char>>::empty()) == Seq::<char>::empty());
    assert(joined_lines(r5) == ls[5] + nl + Seq::<char>::empty());
    assert(joined_lines(r4) == ls[4] + nl + joined_lines(r5));
    assert(joined_lines(r3) == ls[3] + nl + joined_lines(r4));
    assert(joined_lines(r2) == ls[2] + nl + joined_lines(r3));
    assert(joined_lines(r1) == ls[1] + nl + joined_lines(r2));
    assert(joined_lines(ls) == ls[0] + nl + joined_lines(r1));
    assert(starter_manifest_text(name) =~= joined_lines(ls));
}

proof fn lemma_starter_lines_plain(name: Seq<char>)
    requires
        plain_name(name),
    ensures
        forall|k: int| 0 <= k < starter_lines(name).len() ==> plain_line(#[trigger] starter_lines(name)[k]),
{
    reveal_strlit("[package]");
    reveal_strlit("name");
    reveal_strlit("version");
    reveal_strlit("entry");
    reveal_strlit(" = \"");
    reveal_strlit("\"");
    reveal_strlit("0.1.0");
    reveal_strlit("src/main.snp");
    reveal_strlit("[dependencies]");
    let ls = starter_lines(name);
    assert forall|k: int| 0 <= k < ls.len() implies plain_line(#[trigger] ls[k]) by {
        if k == 1 {
            let l = ls[1];
            assert forall|i: int| 0 <= i < l.len() implies l[i] != '\n' by {
                if 8 <= i < l.len() - 1 {
                    assert(l[i] == name[i - 8]);
                }
            }
        } else if k == 2 {
            assert(ls[2] =~= seq!['v', 'e', 'r', 's', 'i', 'o', 'n', ' ', '=', ' ', '"', '0', '.', '1', '.', '0', '"']);
        } else if k == 3 {
            assert(ls[3] =~= seq!['e', 'n', 't', 'r', 'y', ' ', '=', ' ', '"', 's', 'r', 'c', '/', 'm', 'a', 'i', 'n', '.', 's', 'n', 'p', '"']);
        } else if k == 0 {
            assert(ls[0] =~= seq!['[', 'p', 'a', 'c', 'k', 'a', 'g', 'e', ']']);
        } else if k == 5 {
            assert(ls[5] =~= seq!['[', 'd', 'e', 'p', 'e', 'n', 'd', 'e', 'n', 'c', 'i', 'e', 's', ']']);
        }
    }
}

proof fn lemma_starter_lines_read(name: Seq<char>)
    requires
        plain_name(name),
    ensures
        manifest_lines(starter_lines(name), 0, empty_draft()) == Ok::<ManifestDraft, Seq<char>>(ManifestDraft {
            section: "dependencies"@,
            name: Some(name),
            version: Some("0.1.0"@),
            entry: Some("src/main.snp"@),
            dependencies: Map::empty(),
        }),
{
    reveal_strlit("[package]");
    reveal_strlit("[dependencies]");
    reveal_strlit("package");
    reveal_strlit("dependencies");
    reveal_strlit("0.1.0");
    reveal_strlit("src/main.snp");
    reveal_strlit("name");
    reveal_strlit("version");
    reveal_strlit("entry");
    let ls = starter_lines(name);
    assert("0.1.0"@ =~= seq!['0', '.', '1', '.', '0']);
    assert("src/main.snp"@ =~= seq!['s', 'r', 'c', '/', 'm', 'a', 'i', 'n', '.', 's', 'n', 'p']);
    assert(plain_name("0.1.0"@));
    assert(plain_name("src/main.snp"@));
    let d0 = empty_draft();
    let d1 = with_section(d0, "package"@);
    assert(ls[0] =~= seq!['[', 'p', 'a', 'c', 'k', 'a', 'g', 'e', ']']);
    assert(find_char(ls[0], '#', 0) == ls[0].len()) by {
        reveal_with_fuel(find_char, 11);
    }
    assert(ls[0].subrange(1, 8) =~= "package"@);
    lemma_header_line(d0, ls[0], "package"@, 1);
    lemma_field_line(d1, "name"@, name, 2);
    let d2 = ManifestDraft { section: d1.section, name: Some(name), version: d1.version, entry: d1.entry, dependencies: d1.dependencies };
    lemma_field_line(d2, "version"@, "0.1.0"@, 3);
    let d3 = ManifestDraft { section: d2.section, name: d2.name, version: Some("0.1.0"@), entry: d2.entry, dependencies: d2.dependencies };
    lemma_field_line(d3, "entry"@, "src/main.snp"@, 4);
    let d4 = ManifestDraft { section: d3.section, name: d3.name, version: d3.version, entry: Some("src/main.snp"@), dependencies: d3.dependencies };
    assert(Seq::<char>::empty().take(0) =~= Seq::<char>::empty());
    assert(manifest_line(d4, ls[4], 5) == Ok::<ManifestDraft, Seq<char>>(d4));
    assert(ls[5] =~= seq!['[', 'd', 'e', 'p', 'e', 'n', 'd', 'e', 'n', 'c', 'i', 'e', 's', ']']);
    assert(find_char(ls[5], '#', 0) == ls[5].len()) by {
        reveal_with_fuel(find_char, 16);
    }
    assert(ls[5].subrange(1, 13) =~= "dependencies"@);
    lemma_header_line(d4, ls[5], "dependencies"@, 6);
    let d5 = with_section(d4, "dependencies"@);
    assert(manifest_lines(ls, 6, d5) == Ok::<ManifestDraft, Seq<char>>(d5));
    assert(manifest_lines(ls, 5, d4) == manifest_lines(ls, 6, d5));
    assert(manifest_lines(ls, 4, d4) == manifest_lines(ls, 5, d4));
    assert(manifest_lines(ls, 3, d3) == manifest_lines(ls, 4, d4));
    assert(manifest_lines(ls, 2, d2) == manifest_lines(ls, 3, d3));
    assert(manifest_lines(ls, 1, d1) == manifest_lines(ls, 2, d2));
    assert(manifest_lines(ls, 0, d0) == manifest_lines(ls, 1, d1));
    assert(d5.dependencies =~= Map::<Seq<char>, Seq<char>>::empty());
}

/// What `snp init` writes reads back, by `Manifest::parse` as `snp
/// package-check` reads it, as a package of the given name at version 0.1.0,
/// with the default entry and no dependencies.
pub proof fn law_starter_manifest_reads_back(name: Seq<char>)
    requires
        plain_name(name),
    ensures
        manifest_of(starter_manifest_text(name)) == Ok::<ManifestModel, Seq<char>>(ManifestModel {
            name,
            version: "0.1.0"@,
            entry: "src/main.snp"@,
            dependencies: Map::empty(),
        }),
{
    lemma_starter_text(name);
    lemma_starter_lines_plain(name);
    lemma_lines_of_joined(starter_lines(name));
    lemma_starter_lines_read(name);
}

/// The header line `[s]`.
pub open spec fn header_line(s: Seq<char>) -> Seq<char> {
    seq!['['] + s + seq![']']
}

/// Whether a text is empty or ends with a line break, so that what follows starts a line.
pub open spec fn at_line_start(t: Seq<char>) -> bool {
    t.len() == 0 || t.last() == '\n'
}

proof fn lemma_section_header(d: ManifestDraft, s: Seq<char>, n: nat)
    requires
        s == "package"@ || s == "dependencies"@,
    ensures
        manifest_line(d, header_line(s), n) == Ok::<ManifestDraft, Seq<char>>(with_section(d, s)),
        plain_line(header_line(s)),
{
    reveal_strlit("package");
    reveal_strlit("dependencies");
    let raw = header_line(s);
    if s == "package"@ {
        assert(raw =~= seq!['[', 'p', 'a', 'c', 'k', 'a', 'g', 'e', ']']);
    } else {
        assert(raw =~= seq!['[', 'd', 'e', 'p', 'e', 'n', 'd', 'e', 'n', 'c', 'i', 'e', 's', ']']);
    }
    assert(find_char(raw, '#', 0) == raw.len()) by {
        reveal_with_fuel(find_char, 16);
    }
    assert(find_char(raw, '\n', 0) == raw.len()) by {
        reveal_with_fuel(find_char, 16);
    }
    lemma_find_char_range(raw, '\n', 0);
    assert(raw.subrange(1, raw.len() - 1) =~= s);
    lemma_header_line(d, raw, s, n);
}

proof fn lemma_setting_line_plain(key: Seq<char>, value: Seq<char>)
    requires
        plain_key(key),
        plain_name(value),
    ensures
        plain_line(setting_line(key, value)),
{
    reveal_strlit(" = \"");
    reveal_strlit("\"");
    let raw = setting_line(key, value);
    let k = key.len() as int;
    assert forall|i: int| 0 <= i < raw.len() implies raw[i] != '\n' by {
        if i < k {
            assert(raw[i] == key[i]);
        } else if i >= k + 4 && i < raw.len() - 1 {
            assert(raw[i] == value[i - k - 4]);
        }
    }
}

/// The lines of a text that continues with the given plain lines.
proof fn lemma_lines_appended(t: Seq<char>, extra: Seq<Seq<char>>)
    requires
        at_line_start(t),
        forall|k: int| 0 <= k < extra.len() ==> plain_line(#[trigger] extra[k]),
    ensures
        text_lines(t + joined_lines(extra)) == text_lines(t) + extra,
{
    lemma_lines_concat(t, joined_lines(extra));
    lemma_lines_of_joined(extra);
}

/// Putting a blank or comment-only line into the text of a manifest that
/// reads without error, at the start of any line, changes nothing it reads as.
pub proof fn law_blank_line_in_text(a: Seq<char>, b: Seq<char>, raw: Seq<char>)
    requires
        at_line_start(a),
        plain_line(raw),
        line_content(raw).len() == 0,
        manifest_of(a + b) is Ok,
    ensures
        manifest_of(a + raw + seq!['\n'] + b) == manifest_of(a + b),
{
    let one = raw + seq!['\n'];
    lemma_lines_concat(a, b);
    lemma_lines_concat(a, one + b);
    lemma_lines_concat(one, b);
    assert(joined_lines(seq![raw]) =~= one) by {
        assert(seq![raw].drop_first() =~= Seq::<Seq<char>>::empty());
        assert(joined_lines(Seq::<Seq<char>>::empty()) == Seq::<char>::empty());
        assert(joined_lines(seq![raw]) == raw + seq!['\n'] + joined_lines(seq![raw].drop_first()));
    }
    lemma_lines_of_joined(seq![raw]);
    assert(a + raw + seq!['\n'] + b =~= a + (one + b));
    let la = text_lines(a);
    let lb = text_lines(b);
    let all = la + lb;
    let p = la.len() as int;
    assert(all.take(p) =~= la);
    assert(all.skip(p) =~= lb);
    assert(text_lines(a + (one + b)) =~= all.take(p) + seq![raw] + all.skip(p));
    law_blank_line_inserted(all, p, raw);
}

/// Naming a dependency again, under a later `[dependencies]` header, gives
/// the manifest with that dependency's new source and nothing else changed.
pub proof fn law_later_dependency_wins(t: Seq<char>, key: Seq<char>, value: Seq<char>)
    requires
        at_line_start(t),
        manifest_of(t) is Ok,
        plain_key(key),
        plain_name(value),
        value.len() > 0,
    ensures
        manifest_of(t + joined_lines(seq![header_line("dependencies"@), setting_line(key, value)]))
            == Ok::<ManifestModel, Seq<char>>(ManifestModel {
                name: manifest_of(t)->Ok_0.name,
                version: manifest_of(t)->Ok_0.version,
                entry: manifest_of(t)->Ok_0.entry,
                dependencies: manifest_of(t)->Ok_0.dependencies.insert(key, value),
            }),
{
    let h = header_line("dependencies"@);
    let l = setting_line(key, value);
    lemma_section_header(empty_draft(), "dependencies"@, 1);
    lemma_setting_line_plain(key, value);
    let extra = seq![h, l];
    lemma_lines_appended(t, extra);
    let lt = text_lines(t);
    let d = manifest_lines(lt, 0, empty_draft())->Ok_0;
    law_lines_read_in_order(lt, h, empty_draft());
    lemma_section_header(d, "dependencies"@, (lt.len() + 1) as nat);
    let d1 = with_section(d, "dependencies"@);
    law_lines_read_in_order(lt.push(h), l, empty_draft());
    law_setting_line(d1, key, value, (lt.push(h).len() + 1) as nat);
    assert(lt.push(h).push(l) =~= lt + extra);
}

/// Giving a `[package]` field again, under a later `[package]` header, gives
/// the manifest with that field's new value and nothing else changed.
pub proof fn law_later_package_field_wins(t: Seq<char>, key: Seq<char>, value: Seq<char>)
    requires
        at_line_start(t),
        manifest_of(t) is Ok,
        key == "name"@ || key == "version"@ || key == "entry"@,
        plain_name(value),
    ensures
        manifest_of(t + joined_lines(seq![header_line("package"@), setting_line(key, value)]))
            == Ok::<ManifestModel, Seq<char>>(ManifestModel {
                name: if key == "name"@ { value } else { manifest_of(t)->Ok_0.name },
                version: if key == "version"@ { value } else { manifest_of(t)->Ok_0.version },
                entry: if key == "entry"@ { value } else { manifest_of(t)->Ok_0.entry },
                dependencies: manifest_of(t)->Ok_0.dependencies,
            }),
{
    reveal_strlit("name");
    reveal_strlit("version");
    reveal_strlit("entry");
    assert("name"@ =~= seq!['n', 'a', 'm', 'e']);
    assert("version"@ =~= seq!['v', 'e', 'r', 's', 'i', 'o', 'n']);
    assert("entry"@ =~= seq!['e', 'n', 't', 'r', 'y']);
    assert(plain_key(key));
    let h = header_line("package"@);
    let l = setting_line(key, value);
    lemma_section_header(empty_draft(), "package"@, 1);
    lemma_setting_line_plain(key, value);
    let extra = seq![h, l];
    lemma_lines_appended(t, extra);
    let lt = text_lines(t);
    let d = manifest_lines(lt, 0, empty_draft())->Ok_0;
    law_lines_read_in_order(lt, h, empty_draft());
    lemma_section_header(d, "package"@, (lt.len() + 1) as nat);
    let d1 = with_section(d, "package"@);
    law_lines_read_in_order(lt.push(h), l, empty_draft());
    law_setting_line(d1, key, value, (lt.push(h).len() + 1) as nat);
    assert(lt.push(h).push(l) =~= lt + extra);
}

/// In a manifest as `Manifest::parse` gives it (names sorted), each listed
/// dependency is the map's entry for its own name, and the map has no other keys.
pub proof fn law_dependency_entries(m: Manifest)
    requires
        sorted_by_name(m.dependencies@),
    ensures
        forall|i: int| 0 <= i < m.dependencies@.len() ==> {
            &&& m@.dependencies.contains_key(#[trigger] m.dependencies@[i].name@)
            &&& m@.dependencies[m.dependencies@[i].name@] == m.dependencies@[i].source@
        },
        forall|k: Seq<char>| #[trigger] m@.dependencies.contains_key(k)
            ==> exists|i: int| 0 <= i < m.dependencies@.len() && m.dependencies@[i].name@ == k,
{
    assert forall|i: int| 0 <= i < m.dependencies@.len() implies {
        &&& m@.dependencies.contains_key(#[trigger] m.dependencies@[i].name@)
        &&& m@.dependencies[m.dependencies@[i].name@] == m.dependencies@[i].source@
    } by {
        lemma_dependency_entry(m.dependencies@, i);
    }
}

} // verus!
