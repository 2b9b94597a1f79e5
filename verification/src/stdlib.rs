//! Built-in S+N++ standard-library module registry.

use vstd::prelude::*;
use crate::ast::strings_model;
use crate::text::same_text;

verus! {

#[derive(Debug, Clone, PartialEq)]
pub struct ModuleSpec {
    pub name: &'static str,
    pub functions: &'static [&'static str],
}

pub open spec fn texts(s: Seq<&'static str>) -> Seq<Seq<char>> {
    s.map_values(|x: &'static str| x@)
}

/// The standard-library modules that the resolver knows.
pub open spec fn is_std_module(n: Seq<char>) -> bool {
    n == "std.io"@ || n == "std.string"@ || n == "std.collections"@ || n == "std.concurrency"@
}

/// The modules, in name order, with the functions each provides.
pub open spec fn registry_spec(r: Seq<ModuleSpec>) -> bool {
    &&& r.len() == 4
    &&& r[0].name@ == "std.collections"@
    &&& texts(r[0].functions@) == seq![
        "list"@, "list_push"@, "list_len"@, "list_get"@, "list_set"@, "list_concat"@,
        "map"@, "map_set"@, "map_get"@, "map_has"@,
    ]
    &&& r[1].name@ == "std.concurrency"@
    &&& texts(r[1].functions@) == seq!["channel"@, "send"@, "receive"@, "spawn"@, "join"@]
    &&& r[2].name@ == "std.io"@
    &&& texts(r[2].functions@) == seq!["print"@]
    &&& r[3].name@ == "std.string"@
    &&& texts(r[3].functions@) == seq!["str_len"@, "str_contains"@, "str_upper"@, "str_lower"@, "str_trim"@, "str_concat"@]
}

const IO_FUNCTIONS: [&'static str; 1] = ["print"];

const STRING_FUNCTIONS: [&'static str; 6] = ["str_len", "str_contains", "str_upper", "str_lower", "str_trim", "str_concat"];

const COLLECTIONS_FUNCTIONS: [&'static str; 10] = [
    "list", "list_push", "list_len", "list_get", "list_set", "list_concat", "map", "map_set", "map_get", "map_has",
];

const CONCURRENCY_FUNCTIONS: [&'static str; 5] = ["channel", "send", "receive", "spawn", "join"];

/// The standard-library modules, ordered by name.
pub fn registry() -> (r: Vec<ModuleSpec>)
    ensures
        registry_spec(r@),
{
    let mut r: Vec<ModuleSpec> = Vec::new();
    r.push(ModuleSpec { name: "std.collections", functions: &COLLECTIONS_FUNCTIONS });
    r.push(ModuleSpec { name: "std.concurrency", functions: &CONCURRENCY_FUNCTIONS });
    r.push(ModuleSpec { name: "std.io", functions: &IO_FUNCTIONS });
    r.push(ModuleSpec { name: "std.string", functions: &STRING_FUNCTIONS });
    assert(texts(r@[0].functions@) =~= seq![
        "list"@, "list_push"@, "list_len"@, "list_get"@, "list_set"@, "list_concat"@,
        "map"@, "map_set"@, "map_get"@, "map_has"@,
    ]);
    assert(texts(r@[1].functions@) =~= seq!["channel"@, "send"@, "receive"@, "spawn"@, "join"@]);
    assert(texts(r@[2].functions@) =~= seq!["print"@]);
    assert(texts(r@[3].functions@) =~= seq!["str_len"@, "str_contains"@, "str_upper"@, "str_lower"@, "str_trim"@, "str_concat"@]);
    r
}


/// The first import, from `i` on, that names no standard-library module.
pub open spec fn first_unknown(imports: Seq<Seq<char>>, i: int) -> Option<Seq<char>>
    decreases imports.len() - i,
{
    if !(0 <= i < imports.len()) {
        None
    } else if !is_std_module(imports[i]) {
        Some(imports[i])
    } else {
        first_unknown(imports, i + 1)
    }
}

pub open spec fn unknown_module_message(n: Seq<char>) -> Seq<char> {
    "unknown standard-library module `"@ + n
        + "`; available modules: std.io, std.string, std.collections, std.concurrency"@
}

/// How the resolver answers a list of imports.
pub open spec fn resolution(imports: Seq<Seq<char>>) -> Result<(), Seq<char>> {
    match first_unknown(imports, 0) {
        Some(n) => Err(unknown_module_message(n)),
        None => Ok(()),
    }
}

pub proof fn lemma_first_unknown(imports: Seq<Seq<char>>, i: int)
    requires
        0 <= i <= imports.len(),
    ensures
        first_unknown(imports, i) is None <==> forall|k: int| i <= k < imports.len() ==> is_std_module(#[trigger] imports[k]),
    decreases imports.len() - i,
{
    if i < imports.len() {
        lemma_first_unknown(imports, i + 1);
    }
}

/// Whether a module of that name is in the registry.
fn known_module(modules: &Vec<ModuleSpec>, name: &str) -> (r: bool)
    requires
        registry_spec(modules@),
    ensures
        r == is_std_module(name@),
{
    let mut i: usize = 0;
    while i < modules.len()
        invariant
            i <= modules@.len(),
            registry_spec(modules@),
            forall|k: int| 0 <= k < i ==> modules@[k].name@ != name@,
        decreases modules.len() - i,
    {
        if same_text(modules[i].name, name) {
            return true;
        }
        i += 1;
    }
    false
}

/// Checks that every import names a standard-library module.
pub fn resolve(imports: &[String]) -> (res: Result<(), String>)
    ensures
        match resolution(strings_model(imports@)) {
            Ok(_) => res is Ok,
            Err(m) => res is Err && res->Err_0@ == m,
        },
        res is Ok <==> forall|k: int| 0 <= k < imports@.len() ==> is_std_module(#[trigger] imports@[k]@),
{
    let ghost names = strings_model(imports@);
    proof {
        lemma_first_unknown(names, 0);
        assert(forall|k: int| 0 <= k < names.len() ==> #[trigger] names[k] == imports@[k]@);
    }
    let modules = registry();
    let mut i: usize = 0;
    while i < imports.len()
        invariant
            i <= imports@.len(),
            names == strings_model(imports@),
            names.len() == imports@.len(),
            registry_spec(modules@),
            first_unknown(names, i as int) == first_unknown(names, 0),
        decreases imports.len() - i,
    {
        if !known_module(&modules, imports[i].as_str()) {
            assert(names[i as int] == imports@[i as int]@);
            let mut m = String::from_str("unknown standard-library module `");
            m.append(imports[i].as_str());
            m.append("`; available modules: std.io, std.string, std.collections, std.concurrency");
            return Err(m);
        }
        i += 1;
    }
    assert forall|k: int| 0 <= k < imports@.len() implies is_std_module(#[trigger] imports@[k]@) by {
        assert(names[k] == imports@[k]@);
        assert(is_std_module(names[k]));
    }
    Ok(())
}

} // verus!
