//! Recovers a structured build configuration from a line-oriented build
//! file: continuation lines are joined, assignments to known keys are
//! collected, everything else is ignored.

use vstd::prelude::*;
use crate::text::{
    chars_of, copy_range, extend_range, lines_in, lines_of, occurs_at_pos, same_chars, starts_with,
    string_of, string_views, trim, trim_end, trim_end_pos, trim_start,
    trim_start_pos, views, words, words_in, words_so_far,
};

verus! {

/// The configuration that a build file describes.
#[derive(Debug, Clone, PartialEq, Eq)]
pub struct MakefileConfig {
    pub target: Option<String>,
    pub build_dir: Option<String>,
    pub c_sources: Vec<String>,
    pub asm_sources: Vec<String>,
    pub includes: Vec<String>,
    pub defines: Vec<String>,
    pub cflags: Vec<String>,
    pub asflags: Vec<String>,
    pub ldflags: Vec<String>,
    pub libs: Vec<String>,
    pub ldscript: Option<String>,
}

/// The mathematical content of a `MakefileConfig`.
pub struct ConfigModel {
    pub target: Option<Seq<char>>,
    pub build_dir: Option<Seq<char>>,
    pub c_sources: Seq<Seq<char>>,
    pub asm_sources: Seq<Seq<char>>,
    pub includes: Seq<Seq<char>>,
    pub defines: Seq<Seq<char>>,
    pub cflags: Seq<Seq<char>>,
    pub asflags: Seq<Seq<char>>,
    pub ldflags: Seq<Seq<char>>,
    pub libs: Seq<Seq<char>>,
    pub ldscript: Option<Seq<char>>,
}

pub open spec fn opt_view(o: Option<String>) -> Option<Seq<char>> {
    match o {
        Some(s) => Some(s@),
        None => None,
    }
}

impl View for MakefileConfig {
    type V = ConfigModel;

    open spec fn view(&self) -> ConfigModel {
        ConfigModel {
            target: opt_view(self.target),
            build_dir: opt_view(self.build_dir),
            c_sources: string_views(self.c_sources@),
            asm_sources: string_views(self.asm_sources@),
            includes: string_views(self.includes@),
            defines: string_views(self.defines@),
            cflags: string_views(self.cflags@),
            asflags: string_views(self.asflags@),
            ldflags: string_views(self.ldflags@),
            libs: string_views(self.libs@),
            ldscript: opt_view(self.ldscript),
        }
    }
}

impl MakefileConfig {
    /// Include paths and defines hold no entry twice.
    pub open spec fn wf(&self) -> bool {
        self@.includes.no_duplicates() && self@.defines.no_duplicates()
    }
}

/// The configuration of a file with no known assignment.
pub open spec fn empty_model() -> ConfigModel {
    ConfigModel {
        target: None,
        build_dir: None,
        c_sources: seq![],
        asm_sources: seq![],
        includes: seq![],
        defines: seq![],
        cflags: seq![],
        asflags: seq![],
        ldflags: seq![],
        libs: seq![],
        ldscript: None,
    }
}

/// Joining continuation lines: the logical lines finished so far and the
/// one still open.
pub open spec fn unfold_state(lines: Seq<Seq<char>>) -> (Seq<Seq<char>>, Seq<char>)
    decreases lines.len(),
{
    if lines.len() == 0 {
        (seq![], seq![])
    } else {
        let (done, cur) = unfold_state(lines.drop_last());
        let t = trim_end(lines.last());
        if t.len() > 0 && t.last() == '\\' {
            (done, cur + trim_end(t.drop_last()).push(' '))
        } else {
            (done.push(cur + t), seq![])
        }
    }
}

/// The logical lines of a sequence of physical lines: a line whose
/// trimmed end is a backslash continues on the next, the backslash and
/// the whitespace before it replaced by one space; an open continuation
/// at the end is a line too.
pub open spec fn unfold(lines: Seq<Seq<char>>) -> Seq<Seq<char>> {
    words_so_far(unfold_state(lines).0, unfold_state(lines).1)
}


/// A last physical line that continues still ends a logical line: the
/// open fragment, ended by one space, is emitted last.
pub proof fn lemma_dangling_continuation_emitted(lines: Seq<Seq<char>>)
    requires
        lines.len() > 0,
        trim_end(lines.last()).len() > 0,
        trim_end(lines.last()).last() == '\\',
    ensures
        unfold(lines) == unfold_state(lines.drop_last()).0.push(
            unfold_state(lines.drop_last()).1 + trim_end(trim_end(lines.last()).drop_last()).push(' '),
        ),
{
}

/// One more physical line for `unfold_state`.
fn unfold_step(done: &mut Vec<Vec<char>>, cur: &mut Vec<char>, l: &Vec<char>)
    ensures
        (views(final(done)@), final(cur)@) == ({
            let t = trim_end(l@);
            if t.len() > 0 && t.last() == '\\' {
                (views(old(done)@), old(cur)@ + trim_end(t.drop_last()).push(' '))
            } else {
                (views(old(done)@).push(old(cur)@ + t), Seq::<char>::empty())
            }
        }),
{
    let n = trim_end_pos(l.as_slice(), 0, l.len());
    assert(l@.subrange(0, l@.len() as int) == l@);
    if n > 0 && l[n - 1] == '\\' {
        let m = trim_end_pos(l.as_slice(), 0, n - 1);
        extend_range(cur, l.as_slice(), 0, m);
        cur.push(' ');
        assert(l@.subrange(0, n as int).drop_last() == l@.subrange(0, n - 1));
    } else {
        extend_range(cur, l.as_slice(), 0, n);
        let ghost od = views(done@);
        let mut line: Vec<char> = Vec::new();
        std::mem::swap(cur, &mut line);
        let ghost lv = line@;
        done.push(line);
        assert(views(done@) == od.push(lv));
    }
}

/// The logical lines of `lines`, as `unfold` states them.
pub fn unfold_chars(lines: &Vec<Vec<char>>) -> (r: Vec<Vec<char>>)
    ensures
        views(r@) == unfold(views(lines@)),
{
    let mut done: Vec<Vec<char>> = Vec::new();
    let mut cur: Vec<char> = Vec::new();
    let mut i: usize = 0;
    while i < lines.len()
        invariant
            i <= lines@.len(),
            unfold_state(views(lines@).subrange(0, i as int)) == (views(done@), cur@),
        decreases lines@.len() - i,
    {
        let ghost pre = views(lines@).subrange(0, i as int);
        assert(views(lines@).subrange(0, i + 1).drop_last() == pre);
        assert(views(lines@).subrange(0, i + 1).last() == lines@[i as int]@);
        unfold_step(&mut done, &mut cur, &lines[i]);
        i += 1;
    }
    assert(views(lines@).subrange(0, lines@.len() as int) == views(lines@));
    let ghost od = views(done@);
    if cur.len() > 0 {
        let ghost cv = cur@;
        done.push(cur);
        assert(views(done@) == od.push(cv));
    }
    done
}

/// Joins continuation lines: each line whose trimmed end is a backslash
/// continues on the next, the backslash and the whitespace before it
/// replaced by one space.
pub fn unfold_multiline(lines: &[String]) -> (r: Vec<String>)
    ensures
        string_views(r@) == unfold(string_views(lines@)),
{
    let mut done: Vec<Vec<char>> = Vec::new();
    let mut cur: Vec<char> = Vec::new();
    let mut i: usize = 0;
    while i < lines.len()
        invariant
            i <= lines@.len(),
            unfold_state(string_views(lines@).subrange(0, i as int)) == (views(done@), cur@),
        decreases lines@.len() - i,
    {
        let ghost pre = string_views(lines@).subrange(0, i as int);
        assert(string_views(lines@).subrange(0, i + 1).drop_last() == pre);
        let l = chars_of(lines[i].as_str());
        assert(string_views(lines@).subrange(0, i + 1).last() == l@);
        unfold_step(&mut done, &mut cur, &l);
        i += 1;
    }
    assert(string_views(lines@).subrange(0, lines@.len() as int) == string_views(lines@));
    let ghost od = views(done@);
    if cur.len() > 0 {
        let ghost cv = cur@;
        done.push(cur);
        assert(views(done@) == od.push(cv));
    }
    let mut r: Vec<String> = Vec::new();
    let mut k: usize = 0;
    while k < done.len()
        invariant
            k <= done@.len(),
            string_views(r@) == views(done@).subrange(0, k as int),
        decreases done@.len() - k,
    {
        let ghost orv = string_views(r@);
        let s = string_of(done[k].as_slice());
        r.push(s);
        assert(string_views(r@) == orv.push(done@[k as int]@));
        assert(views(done@).subrange(0, k + 1) == views(done@).subrange(0, k as int).push(
            done@[k as int]@,
        ));
        k += 1;
    }
    assert(views(done@).subrange(0, done@.len() as int) == views(done@));
    r
}


/// A character that may stand in a key: an upper-case letter, a digit,
/// `_` or `-`.
pub open spec fn is_key_char(c: char) -> bool {
    ('A' <= c && c <= 'Z') || ('0' <= c && c <= '9') || c == '_' || c == '-'
}

pub fn char_is_key(c: char) -> (r: bool)
    ensures
        r == is_key_char(c),
{
    ('A' <= c && c <= 'Z') || ('0' <= c && c <= '9') || c == '_' || c == '-'
}

/// The length of the longest prefix of `s` made of key characters.
pub open spec fn key_len(s: Seq<char>) -> nat
    decreases s.len(),
{
    if s.len() > 0 && is_key_char(s[0]) {
        1 + key_len(s.drop_first())
    } else {
        0
    }
}

/// `r` without one leading `:` or `+`.
pub open spec fn skip_op(r: Seq<char>) -> Seq<char> {
    if r.len() > 0 && (r[0] == ':' || r[0] == '+') {
        r.drop_first()
    } else {
        r
    }
}

/// The key and the value of an assignment line `KEY [:+]?= VALUE`, with
/// optional whitespace around the operator.
pub open spec fn assignment(line: Seq<char>) -> Option<(Seq<char>, Seq<char>)> {
    let k = key_len(line) as int;
    let r = skip_op(trim_start(line.subrange(k, line.len() as int)));
    if k > 0 && r.len() > 0 && r[0] == '=' {
        Some((line.subrange(0, k), trim_start(r.drop_first())))
    } else {
        None
    }
}

/// Where the key of `s[lo..hi]` ends and its value begins, if that text
/// is an assignment.
pub fn parse_assignment(s: &[char], lo: usize, hi: usize) -> (r: Option<(usize, usize)>)
    requires
        lo <= hi <= s@.len(),
    ensures
        match assignment(s@.subrange(lo as int, hi as int)) {
            Some((k, v)) => match r {
                Some((ke, vs)) => lo <= ke <= vs <= hi && k == s@.subrange(lo as int, ke as int) && v
                    == s@.subrange(vs as int, hi as int),
                None => false,
            },
            None => r is None,
        },
{
    let ghost line = s@.subrange(lo as int, hi as int);
    let mut j = lo;
    while j < hi && char_is_key(s[j])
        invariant
            lo <= j <= hi <= s@.len(),
            key_len(line) == (j - lo) + key_len(s@.subrange(j as int, hi as int)),
        decreases hi - j,
    {
        assert(s@.subrange(j as int, hi as int).drop_first() == s@.subrange(j + 1, hi as int));
        j += 1;
    }
    assert(line.subrange(key_len(line) as int, line.len() as int) == s@.subrange(
        j as int,
        hi as int,
    ));
    let mut p = trim_start_pos(s, j, hi);
    if p < hi && (s[p] == ':' || s[p] == '+') {
        assert(s@.subrange(p as int, hi as int).drop_first() == s@.subrange(p + 1, hi as int));
        p += 1;
    }
    if j > lo && p < hi && s[p] == '=' {
        assert(s@.subrange(p as int, hi as int).drop_first() == s@.subrange(p + 1, hi as int));
        let v = trim_start_pos(s, p + 1, hi);
        assert(line.subrange(0, (j - lo) as int) == s@.subrange(lo as int, j as int));
        Some((j, v))
    } else {
        None
    }
}


/// `acc` with `x` added at the end unless it is there already.
pub open spec fn push_unique(acc: Seq<Seq<char>>, x: Seq<char>) -> Seq<Seq<char>> {
    if acc.contains(x) {
        acc
    } else {
        acc.push(x)
    }
}

/// `tok` without its first `p.len()` characters: the token once a prefix
/// `p` that it starts with is stripped.
pub open spec fn after_prefix(tok: Seq<char>, p: Seq<char>) -> Seq<char> {
    tok.subrange(p.len() as int, tok.len() as int)
}

/// An include token `-I<path>` adds its path (the one `-I` prefix
/// stripped) unless it was seen; other tokens add nothing.
pub open spec fn add_include(acc: Seq<Seq<char>>, tok: Seq<char>) -> Seq<Seq<char>> {
    if starts_with(tok, "-I"@) {
        push_unique(acc, after_prefix(tok, "-I"@))
    } else {
        acc
    }
}

/// The symbol that a define token names: the token after one leading
/// `-D`, or after one leading `-include` (trimmed), or the token itself.
pub open spec fn define_name(tok: Seq<char>) -> Seq<char> {
    if starts_with(tok, "-D"@) {
        after_prefix(tok, "-D"@)
    } else if starts_with(tok, "-include"@) {
        trim(after_prefix(tok, "-include"@))
    } else {
        tok
    }
}

/// A define token adds its non-empty symbol unless it was seen.
pub open spec fn add_define(acc: Seq<Seq<char>>, tok: Seq<char>) -> Seq<Seq<char>> {
    let n = define_name(tok);
    if n.len() == 0 {
        acc
    } else {
        push_unique(acc, n)
    }
}

pub open spec fn add_includes(acc: Seq<Seq<char>>, toks: Seq<Seq<char>>) -> Seq<Seq<char>>
    decreases toks.len(),
{
    if toks.len() == 0 {
        acc
    } else {
        add_include(add_includes(acc, toks.drop_last()), toks.last())
    }
}

pub open spec fn add_defines(acc: Seq<Seq<char>>, toks: Seq<Seq<char>>) -> Seq<Seq<char>>
    decreases toks.len(),
{
    if toks.len() == 0 {
        acc
    } else {
        add_define(add_defines(acc, toks.drop_last()), toks.last())
    }
}

pub proof fn lemma_push_unique_no_dups(acc: Seq<Seq<char>>, x: Seq<char>)
    requires
        acc.no_duplicates(),
    ensures
        push_unique(acc, x).no_duplicates(),
{
    if !acc.contains(x) {
        let r = acc.push(x);
        assert forall|i: int, j: int| 0 <= i < r.len() && 0 <= j < r.len() && i != j implies r[i]
            != r[j] by {
            if i == acc.len() as int {
                assert(r[j] == acc[j]);
                assert(acc[j] != x);
            } else if j == acc.len() as int {
                assert(r[i] == acc[i]);
                assert(acc[i] != x);
            }
        }
    }
}

/// `acc` with `x` added at the end unless it is there already.
fn push_unique_exec(acc: &mut Vec<String>, x: &[char])
    requires
        string_views(old(acc)@).no_duplicates(),
    ensures
        string_views(final(acc)@) == push_unique(string_views(old(acc)@), x@),
        string_views(final(acc)@).no_duplicates(),
{
    let xs = string_of(x);
    let mut k: usize = 0;
    while k < acc.len()
        invariant
            k <= acc@.len(),
            acc@ == old(acc)@,
            string_views(acc@).no_duplicates(),
            xs@ == x@,
            forall|j: int| 0 <= j < k ==> acc@[j]@ != x@,
        decreases acc@.len() - k,
    {
        if acc[k] == xs {
            assert(string_views(acc@)[k as int] == x@);
            proof {
                lemma_push_unique_no_dups(string_views(acc@), x@);
            }
            return;
        }
        k += 1;
    }
    let ghost old_v = string_views(acc@);
    assert(!old_v.contains(x@)) by {
        if old_v.contains(x@) {
            let j = choose|j: int| 0 <= j < old_v.len() && old_v[j] == x@;
            assert(acc@[j]@ == x@);
        }
    }
    proof {
        lemma_push_unique_no_dups(old_v, x@);
    }
    acc.push(xs);
    assert(string_views(acc@) == old_v.push(x@));
}

/// Adds the include paths of `toks`.
fn add_includes_exec(acc: &mut Vec<String>, toks: &Vec<Vec<char>>)
    requires
        string_views(old(acc)@).no_duplicates(),
    ensures
        string_views(final(acc)@) == add_includes(string_views(old(acc)@), views(toks@)),
        string_views(final(acc)@).no_duplicates(),
{
    let flag = chars_of("-I");
    let mut i: usize = 0;
    while i < toks.len()
        invariant
            i <= toks@.len(),
            flag@ == "-I"@,
            string_views(acc@) == add_includes(
                string_views(old(acc)@),
                views(toks@).subrange(0, i as int),
            ),
            string_views(acc@).no_duplicates(),
        decreases toks@.len() - i,
    {
        let tok = toks[i].as_slice();
        assert(views(toks@).subrange(0, i + 1).drop_last() == views(toks@).subrange(0, i as int));
        assert(views(toks@).subrange(0, i + 1).last() == tok@);
        if occurs_at_pos(tok, flag.as_slice(), 0) {
            let path = copy_range(tok, flag.len(), tok.len());
            push_unique_exec(acc, path.as_slice());
        }
        i += 1;
    }
    assert(views(toks@).subrange(0, toks@.len() as int) == views(toks@));
}

/// Where the symbol of the define token `tok` stands in it.
fn define_range(tok: &[char]) -> (r: (usize, usize))
    ensures
        r.0 <= r.1 <= tok@.len(),
        define_name(tok@) == tok@.subrange(r.0 as int, r.1 as int),
{
    let dflag = chars_of("-D");
    let iflag = chars_of("-include");
    assert(tok@.subrange(0, tok@.len() as int) == tok@);
    if occurs_at_pos(tok, dflag.as_slice(), 0) {
        (dflag.len(), tok.len())
    } else if occurs_at_pos(tok, iflag.as_slice(), 0) {
        let p = iflag.len();
        let e = trim_end_pos(tok, p, tok.len());
        let b = trim_start_pos(tok, p, e);
        (b, e)
    } else {
        (0, tok.len())
    }
}

/// Adds the define symbols of `toks`.
fn add_defines_exec(acc: &mut Vec<String>, toks: &Vec<Vec<char>>)
    requires
        string_views(old(acc)@).no_duplicates(),
    ensures
        string_views(final(acc)@) == add_defines(string_views(old(acc)@), views(toks@)),
        string_views(final(acc)@).no_duplicates(),
{
    let mut i: usize = 0;
    while i < toks.len()
        invariant
            i <= toks@.len(),
            string_views(acc@) == add_defines(
                string_views(old(acc)@),
                views(toks@).subrange(0, i as int),
            ),
            string_views(acc@).no_duplicates(),
        decreases toks@.len() - i,
    {
        let tok = toks[i].as_slice();
        assert(views(toks@).subrange(0, i + 1).drop_last() == views(toks@).subrange(0, i as int));
        assert(views(toks@).subrange(0, i + 1).last() == tok@);
        let (b, e) = define_range(tok);
        if b < e {
            let name = copy_range(tok, b, e);
            push_unique_exec(acc, name.as_slice());
        }
        i += 1;
    }
    assert(views(toks@).subrange(0, toks@.len() as int) == views(toks@));
}

/// Appends the words `toks`, as strings, to `acc`.
fn append_words(acc: &mut Vec<String>, toks: &Vec<Vec<char>>)
    ensures
        string_views(final(acc)@) == string_views(old(acc)@) + views(toks@),
{
    let mut i: usize = 0;
    while i < toks.len()
        invariant
            i <= toks@.len(),
            string_views(acc@) == string_views(old(acc)@) + views(toks@).subrange(0, i as int),
        decreases toks@.len() - i,
    {
        let ghost before = string_views(acc@);
        let w = string_of(toks[i].as_slice());
        acc.push(w);
        assert(string_views(acc@) == before.push(toks@[i as int]@));
        assert(views(toks@).subrange(0, i + 1) == views(toks@).subrange(0, i as int).push(
            toks@[i as int]@,
        ));
        i += 1;
    }
    assert(views(toks@).subrange(0, toks@.len() as int) == views(toks@));
}


/// What one assignment does to the configuration: scalar keys take the
/// value, list keys take its words, include and define keys add what
/// their words name; other keys change nothing.
pub open spec fn apply_assignment(cfg: ConfigModel, key: Seq<char>, value: Seq<char>) -> ConfigModel {
    if key == "TARGET"@ {
        ConfigModel { target: Some(value), ..cfg }
    } else if key == "BUILD_DIR"@ {
        ConfigModel { build_dir: Some(value), ..cfg }
    } else if key == "C_SOURCES"@ {
        ConfigModel { c_sources: cfg.c_sources + words(value), ..cfg }
    } else if key == "ASM_SOURCES"@ {
        ConfigModel { asm_sources: cfg.asm_sources + words(value), ..cfg }
    } else if key == "C_INCLUDES"@ || key == "AS_INCLUDES"@ {
        ConfigModel { includes: add_includes(cfg.includes, words(value)), ..cfg }
    } else if key == "C_DEFS"@ || key == "AS_DEFS"@ {
        ConfigModel { defines: add_defines(cfg.defines, words(value)), ..cfg }
    } else if key == "CFLAGS"@ {
        ConfigModel { cflags: cfg.cflags + words(value), ..cfg }
    } else if key == "ASFLAGS"@ {
        ConfigModel { asflags: cfg.asflags + words(value), ..cfg }
    } else if key == "LDFLAGS"@ {
        ConfigModel { ldflags: cfg.ldflags + words(value), ..cfg }
    } else if key == "LIBS"@ {
        ConfigModel { libs: cfg.libs + words(value), ..cfg }
    } else if key == "LDSCRIPT"@ {
        ConfigModel { ldscript: Some(value), ..cfg }
    } else {
        cfg
    }
}

/// What one logical line does: blank lines, comments and lines that are
/// no assignment change nothing.
pub open spec fn apply_line(cfg: ConfigModel, line: Seq<char>) -> ConfigModel {
    let t = trim(line);
    if t.len() == 0 || t[0] == '#' {
        cfg
    } else {
        match assignment(t) {
            Some((k, v)) => apply_assignment(cfg, k, v),
            None => cfg,
        }
    }
}

/// The configuration that a sequence of logical lines describes.
pub open spec fn config_of(lines: Seq<Seq<char>>) -> ConfigModel
    decreases lines.len(),
{
    if lines.len() == 0 {
        empty_model()
    } else {
        apply_line(config_of(lines.drop_last()), lines.last())
    }
}

/// The configuration that the text of a build file describes.
pub open spec fn parsed(content: Seq<char>) -> ConfigModel {
    config_of(unfold(lines_of(content)))
}

fn key_is(key: &[char], name: &str) -> (r: bool)
    ensures
        r == (key@ == name@),
{
    let n = chars_of(name);
    same_chars(key, n.as_slice())
}

/// Applies the assignment of `value` to `key`.
fn assign(cfg: &mut MakefileConfig, key: &[char], value: &[char])
    requires
        old(cfg).wf(),
    ensures
        final(cfg)@ == apply_assignment(old(cfg)@, key@, value@),
        final(cfg).wf(),
{
    let ghost c0 = cfg@;
    if key_is(key, "TARGET") {
        cfg.target = Some(string_of(value));
    } else if key_is(key, "BUILD_DIR") {
        cfg.build_dir = Some(string_of(value));
    } else if key_is(key, "C_SOURCES") {
        append_words(&mut cfg.c_sources, &words_in(value, 0, value.len()));
    } else if key_is(key, "ASM_SOURCES") {
        append_words(&mut cfg.asm_sources, &words_in(value, 0, value.len()));
    } else if key_is(key, "C_INCLUDES") || key_is(key, "AS_INCLUDES") {
        add_includes_exec(&mut cfg.includes, &words_in(value, 0, value.len()));
    } else if key_is(key, "C_DEFS") || key_is(key, "AS_DEFS") {
        add_defines_exec(&mut cfg.defines, &words_in(value, 0, value.len()));
    } else if key_is(key, "CFLAGS") {
        append_words(&mut cfg.cflags, &words_in(value, 0, value.len()));
    } else if key_is(key, "ASFLAGS") {
        append_words(&mut cfg.asflags, &words_in(value, 0, value.len()));
    } else if key_is(key, "LDFLAGS") {
        append_words(&mut cfg.ldflags, &words_in(value, 0, value.len()));
    } else if key_is(key, "LIBS") {
        append_words(&mut cfg.libs, &words_in(value, 0, value.len()));
    } else if key_is(key, "LDSCRIPT") {
        cfg.ldscript = Some(string_of(value));
    }
    assert(value@.subrange(0, value@.len() as int) == value@);
    assert(cfg@ == apply_assignment(c0, key@, value@));
}

/// Applies one logical line.
fn apply_line_exec(cfg: &mut MakefileConfig, line: &[char])
    requires
        old(cfg).wf(),
    ensures
        final(cfg)@ == apply_line(old(cfg)@, line@),
        final(cfg).wf(),
{
    assert(line@.subrange(0, line@.len() as int) == line@);
    let e = trim_end_pos(line, 0, line.len());
    let b = trim_start_pos(line, 0, e);
    if b == e || line[b] == '#' {
        return;
    }
    let t = copy_range(line, b, e);
    assert(t@ == trim(line@));
    assert(t@.subrange(0, t@.len() as int) == t@);
    match parse_assignment(t.as_slice(), 0, t.len()) {
        Some((ke, vs)) => {
            let key = copy_range(t.as_slice(), 0, ke);
            let value = copy_range(t.as_slice(), vs, t.len());
            assign(cfg, key.as_slice(), value.as_slice());
        },
        None => {},
    }
}

/// Extracts the configuration from the text of a build file. Never fails:
/// what is not understood is ignored.
pub fn parse_makefile(content: &str) -> (cfg: MakefileConfig)
    ensures
        cfg@ == parsed(content@),
        cfg.wf(),
{
    let cs = chars_of(content);
    let physical = lines_in(cs.as_slice());
    let lines = unfold_chars(&physical);
    let mut cfg = MakefileConfig {
        target: None,
        build_dir: None,
        c_sources: Vec::new(),
        asm_sources: Vec::new(),
        includes: Vec::new(),
        defines: Vec::new(),
        cflags: Vec::new(),
        asflags: Vec::new(),
        ldflags: Vec::new(),
        libs: Vec::new(),
        ldscript: None,
    };
    assert(string_views(cfg.c_sources@) =~= Seq::<Seq<char>>::empty());
    assert(cfg@ == empty_model());
    let mut i: usize = 0;
    while i < lines.len()
        invariant
            i <= lines@.len(),
            cfg.wf(),
            cfg@ == config_of(views(lines@).subrange(0, i as int)),
        decreases lines@.len() - i,
    {
        assert(views(lines@).subrange(0, i + 1).drop_last() == views(lines@).subrange(0, i as int));
        assert(views(lines@).subrange(0, i + 1).last() == lines@[i as int]@);
        apply_line_exec(&mut cfg, lines[i].as_slice());
        i += 1;
    }
    assert(views(lines@).subrange(0, lines@.len() as int) == views(lines@));
    cfg
}

} // verus!
