//! The values that fill the project templates.

use vstd::prelude::*;
use crate::makefile::MakefileConfig;
use crate::text::{chars_of, string_of, string_views};

verus! {

#[verifier::external_type_specification]
#[verifier::external_body]
pub struct ExJsonError(serde_json::Error);

/// What fills the IDE project descriptor and workspace templates.
pub struct EIDEConfigContext<'a> {
    pub project_name: &'a String,
    pub ld_file_path: &'a String,
    pub src_dirs: &'a String,
    pub include_list: &'a String,
    pub define_list: &'a String,
    pub src_files: &'a String,
}

/// What fills the project-creation scripts.
pub struct CreateContext<'a> {
    pub project_name: &'a String,
    pub project_dir: &'a String,
    pub ioc_file_path: &'a String,
    pub toolchain: &'a str,
    pub generate_under_root: bool,
}

/// The lower-case hexadecimal digit of `n`, below sixteen.
pub open spec fn hex_digit(n: u32) -> char {
    seq!['0', '1', '2', '3', '4', '5', '6', '7', '8', '9', 'a', 'b', 'c', 'd', 'e', 'f'][n as int]
}

/// One character as a JSON string writes it: quote and backslash get a
/// backslash, the usual control characters their short escapes, other
/// control characters `\u00XX`; everything else stands as it is.
pub open spec fn json_escaped(c: char) -> Seq<char> {
    if c == '"' {
        seq!['\\', '"']
    } else if c == '\\' {
        seq!['\\', '\\']
    } else if c == '\u{8}' {
        seq!['\\', 'b']
    } else if c == '\t' {
        seq!['\\', 't']
    } else if c == '\n' {
        seq!['\\', 'n']
    } else if c == '\u{c}' {
        seq!['\\', 'f']
    } else if c == '\r' {
        seq!['\\', 'r']
    } else if (c as u32) < 0x20 {
        seq!['\\', 'u', '0', '0', hex_digit((c as u32) / 16), hex_digit((c as u32) % 16)]
    } else {
        seq![c]
    }
}

/// The characters of `s`, each escaped.
pub open spec fn json_escaped_all(s: Seq<char>) -> Seq<char>
    decreases s.len(),
{
    if s.len() == 0 {
        seq![]
    } else {
        json_escaped_all(s.drop_last()) + json_escaped(s.last())
    }
}

/// A JSON string literal.
pub open spec fn json_string(s: Seq<char>) -> Seq<char> {
    seq!['"'] + json_escaped_all(s) + seq!['"']
}

/// String literals separated by commas.
pub open spec fn json_items(items: Seq<Seq<char>>) -> Seq<char>
    decreases items.len(),
{
    if items.len() == 0 {
        seq![]
    } else if items.len() == 1 {
        json_string(items[0])
    } else {
        json_items(items.drop_last()) + seq![','] + json_string(items.last())
    }
}

/// The compact JSON array of a list of strings.
pub open spec fn json_list(items: Seq<Seq<char>>) -> Seq<char> {
    seq!['['] + json_items(items) + seq![']']
}

/// Relies on `serde_json::to_string` on a `Vec<String>`: the compact JSON
/// array of the escaped strings. It fails only where a `Serialize` impl
/// fails or a map has non-string keys, neither of which a list of strings
/// has.
#[verifier::external_body]
fn strings_to_json(items: &Vec<String>) -> (r: Result<String, serde_json::Error>)
    ensures
        r is Ok,
        r matches Ok(s) ==> s@ == json_list(string_views(items@)),
{
    serde_json::to_string(items)
}

/// The JSON text of a list of strings.
pub fn json_string_list(items: &Vec<String>) -> (r: String)
    ensures
        r@ == json_list(string_views(items@)),
{
    match strings_to_json(items) {
        Ok(s) => s,
        Err(_) => String::new(),
    }
}

fn owned(s: &String) -> (r: String)
    ensures
        r@ == s@,
{
    string_of(chars_of(s.as_str()).as_slice())
}

/// The project name: the build target, or empty where none is set.
pub fn eide_project_name(cfg: &MakefileConfig) -> (r: String)
    ensures
        r@ == match cfg@.target {
            Some(t) => t,
            None => Seq::<char>::empty(),
        },
{
    match &cfg.target {
        Some(t) => owned(t),
        None => String::new(),
    }
}

/// The linker script, or empty where none is set.
pub fn eide_ld_file(cfg: &MakefileConfig) -> (r: String)
    ensures
        r@ == match cfg@.ldscript {
            Some(t) => t,
            None => Seq::<char>::empty(),
        },
{
    match &cfg.ldscript {
        Some(t) => owned(t),
        None => String::new(),
    }
}

fn copy_strings(v: &Vec<String>) -> (r: Vec<String>)
    ensures
        string_views(r@) == string_views(v@),
{
    let mut r: Vec<String> = Vec::new();
    let mut i: usize = 0;
    while i < v.len()
        invariant
            i <= v@.len(),
            string_views(r@) == string_views(v@).subrange(0, i as int),
        decreases v@.len() - i,
    {
        let ghost before = string_views(r@);
        r.push(owned(&v[i]));
        assert(string_views(r@) == before.push(v@[i as int]@));
        assert(string_views(v@).subrange(0, i + 1) == string_views(v@).subrange(0, i as int).push(
            v@[i as int]@,
        ));
        i += 1;
    }
    assert(string_views(v@).subrange(0, v@.len() as int) == string_views(v@));
    r
}

/// The include directories of the IDE project: those of the build file,
/// then the user code directory.
pub fn eide_include_dirs(cfg: &MakefileConfig) -> (r: Vec<String>)
    ensures
        string_views(r@) == cfg@.includes.push("UserCode"@),
{
    let mut r = copy_strings(&cfg.includes);
    let ghost before = string_views(r@);
    r.push(string_of(chars_of("UserCode").as_slice()));
    assert(string_views(r@) == before.push("UserCode"@));
    r
}

/// The names among `names` that do not begin with a dot, in order.
pub open spec fn visible(names: Seq<Seq<char>>) -> Seq<Seq<char>>
    decreases names.len(),
{
    if names.len() == 0 {
        seq![]
    } else if names.last().len() > 0 && names.last()[0] == '.' {
        visible(names.drop_last())
    } else {
        visible(names.drop_last()).push(names.last())
    }
}

/// The source directories of the IDE project: the directory names that
/// are not hidden.
pub fn visible_dirs(names: &Vec<String>) -> (r: Vec<String>)
    ensures
        string_views(r@) == visible(string_views(names@)),
{
    let mut r: Vec<String> = Vec::new();
    let mut i: usize = 0;
    while i < names.len()
        invariant
            i <= names@.len(),
            string_views(r@) == visible(string_views(names@).subrange(0, i as int)),
        decreases names@.len() - i,
    {
        let cs = chars_of(names[i].as_str());
        let ghost pre = string_views(names@).subrange(0, i as int);
        let ghost next = string_views(names@).subrange(0, i + 1);
        assert(next == pre.push(cs@));
        assert(next.drop_last() == pre);
        if !(cs.len() > 0 && cs[0] == '.') {
            let ghost before = string_views(r@);
            r.push(string_of(cs.as_slice()));
            assert(string_views(r@) == before.push(cs@));
        }
        i += 1;
    }
    assert(string_views(names@).subrange(0, names@.len() as int) == string_views(names@));
    r
}

} // verus!
