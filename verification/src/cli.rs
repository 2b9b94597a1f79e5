//! What the command-line interface prints: program values and diagnostics
//! that point at the source line an error names.

use vstd::prelude::*;
use crate::ast::Value;
use crate::package::{import_validation, validate_imports, Manifest, ManifestModel};
use crate::parser::{parse_program, parsed_program};
use crate::stdlib::{is_std_module, lemma_first_unknown, resolution, resolve};
use crate::typecheck::{check, check_program};
use crate::text::{
    chars_of, contains_text, decimal, decimal_string, find_char, has_infix, index_of, int_string,
    int_text, line_end, lines_from, slice_chars, string_of, text_lines,
};

verus! {

/// How a value is printed.
pub open spec fn value_text(v: Value) -> Seq<char> {
    match v {
        Value::Int(n) => int_text(n as int),
        Value::Str(s) => s@,
        Value::Bool(b) => if b { "true"@ } else { "false"@ },
        Value::Unit => "unit"@,
        Value::Thread(id) => "thread("@ + decimal(id as nat) + ")"@,
        Value::Channel(id) => "channel("@ + decimal(id as nat) + ")"@,
        Value::List(items) => "list(len="@ + decimal(items@.len()) + ")"@,
        Value::Dict(items) => "map(len="@ + decimal(items@.len()) + ")"@,
    }
}

/// The text a program value is printed as.
pub fn show(value: &Value) -> (s: String)
    ensures
        s@ == value_text(*value),
{
    match value {
        Value::Int(n) => int_string(*n),
        Value::Str(s) => s.clone(),
        Value::Bool(b) => if *b { String::from_str("true") } else { String::from_str("false") },
        Value::Unit => String::from_str("unit"),
        Value::Thread(id) => {
            let mut s = String::from_str("thread(");
            s.append(decimal_string(*id as u64).as_str());
            s.append(")");
            s
        },
        Value::Channel(id) => {
            let mut s = String::from_str("channel(");
            s.append(decimal_string(*id as u64).as_str());
            s.append(")");
            s
        },
        Value::List(items) => {
            let mut s = String::from_str("list(len=");
            s.append(decimal_string(items.len() as u64).as_str());
            s.append(")");
            s
        },
        Value::Dict(items) => {
            let mut s = String::from_str("map(len=");
            s.append(decimal_string(items.len() as u64).as_str());
            s.append(")");
            s
        },
    }
}

/// The name an error message quotes: the text after its first backtick, up
/// to the next backtick or the end.
pub open spec fn quoted_name(e: Seq<char>) -> Option<Seq<char>> {
    let a = find_char(e, '`', 0);
    if a == e.len() {
        None
    } else {
        Some(e.subrange(a + 1, find_char(e, '`', a + 1)))
    }
}

/// The first line from `i` on that contains `n`.
pub open spec fn line_with(lines: Seq<Seq<char>>, n: Seq<char>, i: int) -> Option<int>
    decreases lines.len() - i,
{
    if !(0 <= i < lines.len()) {
        None
    } else if has_infix(lines[i], n) {
        Some(i)
    } else {
        line_with(lines, n, i + 1)
    }
}

/// The first non-empty line from `i` on, or the empty text.
pub open spec fn first_nonempty(lines: Seq<Seq<char>>, i: int) -> Seq<char>
    decreases lines.len() - i,
{
    if !(0 <= i < lines.len()) {
        seq![]
    } else if lines[i].len() > 0 {
        lines[i]
    } else {
        first_nonempty(lines, i + 1)
    }
}

/// The line a diagnostic points at, numbered from 1, and its text: the first
/// line that contains the quoted name, else line 1 with the first non-empty line.
pub open spec fn pointed_line(source: Seq<char>, error: Seq<char>) -> (nat, Seq<char>) {
    let lines = text_lines(source);
    match quoted_name(error) {
        Some(n) => match line_with(lines, n, 0) {
            Some(k) => ((k + 1) as nat, lines[k]),
            None => (1, first_nonempty(lines, 0)),
        },
        None => (1, first_nonempty(lines, 0)),
    }
}

/// `s` right-aligned in a field three characters wide.
pub open spec fn right3(s: Seq<char>) -> Seq<char> {
    if s.len() >= 3 {
        s
    } else {
        Seq::new((3 - s.len()) as nat, |i: int| ' ') + s
    }
}

/// The rendered diagnostic.
pub open spec fn diagnostic_text(source: Seq<char>, error: Seq<char>) -> Seq<char> {
    let (n, line) = pointed_line(source, error);
    "error: "@ + error + "\n  --> source.snp:"@ + decimal(n) + ":1\n   |\n"@ + right3(decimal(n)) + " | "@ + line
        + "\n   | ^"@
}

fn right_aligned(s: &String) -> (r: String)
    ensures
        r@ == right3(s@),
{
    let n = chars_of(s.as_str()).len();
    let mut r = String::new();
    let mut k: usize = n;
    while k < 3
        invariant
            n == s@.len(),
            n <= k <= 3 || (n > 3 && k == n),
            r@ == Seq::new((k - n) as nat, |i: int| ' '),
        decreases 3 - k,
    {
        let ghost before = r@;
        crate::text::push_char(&mut r, ' ');
        assert(r@ =~= Seq::new((k + 1 - n) as nat, |i: int| ' '));
        k += 1;
    }
    r.append(s.as_str());
    assert(s@.len() >= 3 ==> r@ =~= s@);
    r
}

/// An error message with the source line it concerns.
pub fn diagnostic(source: &str, error: &str) -> (r: String)
    ensures
        r@ == diagnostic_text(source@, error@),
{
    let e = chars_of(error);
    let a = index_of(&e, '`', 0);
    let needle: Option<Vec<char>> = if a == e.len() {
        None
    } else {
        let b = index_of(&e, '`', a + 1);
        Some(slice_chars(&e, a + 1, b))
    };
    let t = chars_of(source);
    let ghost lines = text_lines(t@);
    let mut done_lines: usize = 0;
    let ghost mut done: Seq<Seq<char>> = seq![];
    let mut i: usize = 0;
    let mut line_no: usize = 1;
    let mut line_text: Vec<char> = Vec::new();
    let mut found = false;
    while i < t.len()
        invariant_except_break
            !found,
        invariant
            t@ == source@,
            lines == text_lines(t@),
            i <= t.len(),
            done_lines == done.len(),
            done_lines <= i,
            lines == done + lines_from(t@, i as int),
            match needle {
                Some(n) => n@ == quoted_name(error@)->0 && quoted_name(error@) is Some,
                None => quoted_name(error@) is None,
            },
            !found ==> line_no == 1,
            !found ==> match needle {
                Some(n) => line_with(lines, n@, 0) == line_with(lines, n@, done_lines as int),
                None => true,
            },
            !found ==> (if line_text@.len() > 0 {
                line_text@ == first_nonempty(lines, 0)
            } else {
                first_nonempty(lines, 0) == first_nonempty(lines, done_lines as int)
            }),
            found ==> needle is Some && line_with(lines, needle->0@, 0) == Some((line_no - 1) as int)
                && line_text@ == lines[line_no - 1],
        ensures
            !found ==> i == t.len(),
        decreases t.len() - i,
    {
        let (end, next) = line_end(&t, i);
        let line = slice_chars(&t, i, end);
        proof {
            let rest = lines_from(t@, next as int);
            assert(lines_from(t@, i as int) =~= seq![line@] + rest);
            assert(lines =~= done.push(line@) + rest);
            assert(lines[done_lines as int] == line@);
        }
        let hit = match &needle {
            Some(n) => contains_text(line.as_slice(), n.as_slice()),
            None => false,
        };
        if hit {
            line_no = done_lines + 1;
            line_text = line;
            found = true;
            break;
        }
        if line_text.len() == 0 {
            line_text = line;
        }
        proof {
            done = done.push(line@);
        }
        done_lines += 1;
        i = next;
    }
    proof {
        if !found {
            assert(lines_from(t@, i as int) =~= seq![]);
            assert(lines =~= done);
        }
    }
    let number = decimal_string(line_no as u64);
    let mut r = String::from_str("error: ");
    r.append(error);
    r.append("\n  --> source.snp:");
    r.append(number.as_str());
    r.append(":1\n   |\n");
    r.append(right_aligned(&number).as_str());
    r.append(" | ");
    r.append(string_of(line_text.as_slice()).as_str());
    r.append("\n   | ^");
    r
}

/// What `snp check` decides about a source file: it must parse, its imports
/// must name standard-library modules, and its functions must pass the type checker.
pub open spec fn source_verdict(source: Seq<char>) -> Result<(), Seq<char>> {
    match parsed_program(source) {
        Err(m) => Err(m),
        Ok(p) => match resolution(p.imports) {
            Err(m) => Err(m),
            Ok(_) => check_program(p.functions),
        },
    }
}

/// A source file that imports a module the standard library does not have is
/// rejected with the resolver's message, before its functions are looked at.
pub proof fn law_unknown_import_rejected_first(source: Seq<char>)
    requires
        parsed_program(source) is Ok,
        exists|k: int| 0 <= k < parsed_program(source)->Ok_0.imports.len()
            && !is_std_module(#[trigger] parsed_program(source)->Ok_0.imports[k]),
    ensures
        source_verdict(source) is Err,
        source_verdict(source) == resolution(parsed_program(source)->Ok_0.imports),
{
    lemma_first_unknown(parsed_program(source)->Ok_0.imports, 0);
}

/// Checks a source file as `snp check` does.
pub fn check_source(source: &str) -> (res: Result<(), String>)
    ensures
        match source_verdict(source@) {
            Ok(_) => res is Ok,
            Err(m) => res is Err && res->Err_0@ == m,
        },
{
    let program = parse_program(source)?;
    resolve(program.imports.as_slice())?;
    check(program.functions.as_slice())
}

/// What `snp package-check` decides about a package's entry file: it must
/// parse, and its imports must be valid for the manifest.
pub open spec fn entry_verdict(source: Seq<char>, deps: Map<Seq<char>, Seq<char>>) -> Result<(), Seq<char>> {
    match parsed_program(source) {
        Err(m) => Err(m),
        Ok(p) => import_validation(p.imports, deps),
    }
}

/// Checks a package's entry file against its manifest.
pub fn check_entry(manifest: &Manifest, source: &str) -> (res: Result<(), String>)
    ensures
        match entry_verdict(source@, manifest@.dependencies) {
            Ok(_) => res is Ok,
            Err(m) => res is Err && res->Err_0@ == m,
        },
{
    let program = parse_program(source)?;
    validate_imports(program.imports.as_slice(), manifest)
}

pub open spec fn package_summary_text(m: ManifestModel, n: nat) -> Seq<char> {
    "ok: package `"@ + m.name + "` v"@ + m.version + " with "@ + decimal(n) + " local dependenc"@
        + if n == 1 { "y"@ } else { "ies"@ }
}

/// The line `snp package-check` prints for a package with `n` local dependencies.
pub fn package_summary(manifest: &Manifest, n: usize) -> (s: String)
    ensures
        s@ == package_summary_text(manifest@, n as nat),
{
    let mut s = String::from_str("ok: package `");
    s.append(manifest.name.as_str());
    s.append("` v");
    s.append(manifest.version.as_str());
    s.append(" with ");
    s.append(decimal_string(n as u64).as_str());
    s.append(" local dependenc");
    if n == 1 {
        s.append("y");
    } else {
        s.append("ies");
    }
    s
}

} // verus!
