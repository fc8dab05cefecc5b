//! Idempotent text edits: each patch names a file and one of three
//! operations, and carries the text by which an earlier application is
//! recognised.

use vstd::prelude::*;
use crate::text::{
    lemma_contains_self, lemma_contains_trans, lemma_contains_within, lemma_line_split_extend,
    lemma_lines_have_no_newline, lemma_replaced_nothing, lemma_replaced_shows_replacement,
    line_split, strip_cr, occurs_at, chars_of, contains, contains_chars, extend_range, lines_in, lines_of, replace_chars,
    replaced, same_chars, string_of, views,
};

verus! {

#[verifier::external_type_specification]
#[verifier::external_body]
pub struct ExRegex(regex::Regex);

#[verifier::external_type_specification]
#[verifier::external_body]
pub struct ExRegexError(regex::Error);

/// Whether `regex::Regex::new` accepts a pattern.
pub uninterp spec fn regex_compiles(pattern: Seq<char>) -> bool;

/// Whether a pattern matches somewhere in a text (`regex::Regex::is_match`).
pub uninterp spec fn regex_finds(pattern: Seq<char>, text: Seq<char>) -> bool;

/// A text with every match of a pattern replaced by a replacement string
/// that may refer to capture groups (`regex::Regex::replace_all`).
pub uninterp spec fn regex_replaced(pattern: Seq<char>, text: Seq<char>, rep: Seq<char>) -> Seq<
    char,
>;

/// A compiled regular expression and the pattern it was compiled from.
/// Only `compile_pattern` builds one, so the two always agree.
pub struct TextPattern {
    re: regex::Regex,
    source: String,
}

impl TextPattern {
    pub closed spec fn source(&self) -> Seq<char> {
        self.source@
    }
}

/// Relies on `regex::Regex::new`: it accepts or refuses a pattern by its
/// text alone.
#[verifier::external_body]
fn compile_pattern(pattern: &str) -> (r: Result<TextPattern, regex::Error>)
    ensures
        r is Ok <==> regex_compiles(pattern@),
        r matches Ok(p) ==> p.source() == pattern@,
{
    match regex::Regex::new(pattern) {
        Ok(re) => Ok(TextPattern { re, source: pattern.to_string() }),
        Err(e) => Err(e),
    }
}

/// Relies on `regex::Regex::is_match`: whether the pattern matches
/// anywhere in the text.
#[verifier::external_body]
fn pattern_finds(p: &TextPattern, text: &str) -> (r: bool)
    ensures
        r == regex_finds(p.source(), text@),
{
    p.re.is_match(text)
}

/// Relies on `regex::Regex::replace_all`: every non-overlapping match is
/// replaced; the result depends on the pattern, the text and the
/// replacement alone.
#[verifier::external_body]
fn pattern_replace_all(p: &TextPattern, text: &str, rep: &str) -> (r: String)
    ensures
        r@ == regex_replaced(p.source(), text@, rep@),
{
    p.re.replace_all(text, rep).into_owned()
}

/// One idempotent edit of one file.
#[derive(Debug, Clone, PartialEq, Eq)]
pub enum Patch {
    /// Insert `insert` on a new line below every line that contains
    /// `after`, unless the file already contains `marker`.
    Append { file: String, after: String, insert: String, marker: String },
    /// Replace every occurrence of `find` by `insert`, unless the file
    /// already contains `insert`.
    Replace { file: String, find: String, insert: String },
    /// Replace every match of `pattern` by `insert`, unless the file
    /// already contains `insert` (a text without a match is left as is).
    RegexReplace { file: String, pattern: String, insert: String },
}

/// The directories to create and the patches to apply, in order.
pub struct Config {
    pub directories: Vec<String>,
    pub patches: Vec<Patch>,
}

/// What applying a patch calls for.
#[derive(Debug, Clone, PartialEq, Eq)]
pub enum PatchOutcome {
    /// Write this new content to the file.
    Applied(String),
    /// Leave the file as it is: it is missing, already patched, or the
    /// edit changes nothing.
    Skipped,
}

/// Why a patch cannot be applied.
#[derive(Debug, Clone, PartialEq, Eq)]
pub enum PatchError {
    /// The pattern of a regex patch does not compile.
    InvalidPattern(String),
}

/// The file that a patch edits.
pub open spec fn patch_file(p: Patch) -> Seq<char> {
    match p {
        Patch::Append { file, .. } => file@,
        Patch::Replace { file, .. } => file@,
        Patch::RegexReplace { file, .. } => file@,
    }
}

/// The file that a patch edits.
pub fn get_file(patch: &Patch) -> (r: &str)
    ensures
        r@ == patch_file(*patch),
{
    match patch {
        Patch::Append { file, .. } => file.as_str(),
        Patch::Replace { file, .. } => file.as_str(),
        Patch::RegexReplace { file, .. } => file.as_str(),
    }
}

/// A line, followed by `insert` on a new line if it contains `after`.
pub open spec fn append_line(l: Seq<char>, after: Seq<char>, insert: Seq<char>) -> Seq<char> {
    if contains(l, after) {
        l + seq!['\n'] + insert
    } else {
        l
    }
}

/// Lines joined by `'\n'`.
pub open spec fn join_lines(ls: Seq<Seq<char>>) -> Seq<char>
    decreases ls.len(),
{
    if ls.len() == 0 {
        seq![]
    } else if ls.len() == 1 {
        ls[0]
    } else {
        join_lines(ls.drop_last()) + seq!['\n'] + ls.last()
    }
}

/// The lines of `content`, each followed by `insert` where it contains
/// `after`.
pub open spec fn appended_lines(content: Seq<char>, after: Seq<char>, insert: Seq<char>) -> Seq<
    Seq<char>,
> {
    lines_of(content).map_values(|l: Seq<char>| append_line(l, after, insert))
}

/// The text of an append edit: the lines, with the insertions, joined
/// by newlines and ended by one.
pub open spec fn appended(content: Seq<char>, after: Seq<char>, insert: Seq<char>) -> Seq<char> {
    join_lines(appended_lines(content, after, insert)) + seq!['\n']
}

/// The new content that a patch computes for `content`, or `None` where
/// its check finds the edit already made.
pub open spec fn edited(p: Patch, content: Seq<char>) -> Option<Seq<char>> {
    match p {
        Patch::Append { after, insert, marker, .. } => if contains(content, marker@) {
            None
        } else {
            Some(appended(content, after@, insert@))
        },
        Patch::Replace { find, insert, .. } => if contains(content, insert@) {
            None
        } else {
            Some(replaced(content, find@, insert@))
        },
        Patch::RegexReplace { pattern, insert, .. } => if !regex_finds(pattern@, content) || contains(
            content,
            insert@,
        ) {
            None
        } else {
            Some(regex_replaced(pattern@, content, insert@))
        },
    }
}

/// The content of the file once the patch has run on `content`.
pub open spec fn after_patch(p: Patch, content: Seq<char>) -> Seq<char> {
    match edited(p, content) {
        Some(n) => n,
        None => content,
    }
}

/// The patch can run: a regex patch needs a pattern that compiles.
pub open spec fn patch_valid(p: Patch) -> bool {
    match p {
        Patch::RegexReplace { pattern, .. } => regex_compiles(pattern@),
        _ => true,
    }
}

/// The result of applying `p` to a file that holds `content`: an error
/// for a pattern that does not compile, else the new content where it
/// differs, else a skip.
pub open spec fn patch_result(p: Patch, content: Seq<char>, r: Result<PatchOutcome, PatchError>) -> bool {
    if !patch_valid(p) {
        r matches Err(PatchError::InvalidPattern(s)) && s@ == p->RegexReplace_pattern@
    } else if after_patch(p, content) == content {
        r matches Ok(PatchOutcome::Skipped)
    } else {
        r matches Ok(PatchOutcome::Applied(n)) && n@ == after_patch(p, content)
    }
}


/// The text of an append edit of `content`.
fn append_text(content: &[char], after: &[char], insert: &[char]) -> (r: Vec<char>)
    ensures
        r@ == appended(content@, after@, insert@),
{
    let lines = lines_in(content);
    let ghost mapped = appended_lines(content@, after@, insert@);
    let mut out: Vec<char> = Vec::new();
    let mut i: usize = 0;
    while i < lines.len()
        invariant
            i <= lines@.len(),
            views(lines@) == lines_of(content@),
            mapped == lines_of(content@).map_values(
                |l: Seq<char>| append_line(l, after@, insert@),
            ),
            out@ == join_lines(mapped.subrange(0, i as int)),
        decreases lines@.len() - i,
    {
        let l = lines[i].as_slice();
        let ghost before = out@;
        if i > 0 {
            out.push('\n');
        }
        extend_range(&mut out, l, 0, l.len());
        assert(l@.subrange(0, l@.len() as int) == l@);
        if contains_chars(l, after) {
            out.push('\n');
            extend_range(&mut out, insert, 0, insert.len());
            assert(insert@.subrange(0, insert@.len() as int) == insert@);
        }
        let ghost m = mapped.subrange(0, i + 1);
        assert(m.drop_last() == mapped.subrange(0, i as int));
        assert(m.last() == append_line(l@, after@, insert@));
        if i == 0 {
            assert(out@ == m[0]);
        } else {
            assert(out@ == before + seq!['\n'] + m.last());
        }
        i += 1;
    }
    assert(mapped.subrange(0, lines@.len() as int) == mapped);
    out.push('\n');
    out
}

/// What a regex patch calls for on `content`, given whether its pattern
/// matches there (`found`) and the text that replacing every match by
/// `insert` gives (`replaced`, read only where the pattern matches and
/// `content` lacks `insert`): a skip where the pattern does not match,
/// the content already holds `insert`, or the replacement changes nothing;
/// else the replaced text.
pub fn regex_patch_outcome(content: &str, insert: &str, found: bool, replaced: &str) -> (r:
    PatchOutcome)
    ensures
        if !found || contains(content@, insert@) || replaced@ == content@ {
            r matches PatchOutcome::Skipped
        } else {
            r matches PatchOutcome::Applied(n) && n@ == replaced@
        },
{
    let cs = chars_of(content);
    let ins = chars_of(insert);
    if !found || contains_chars(cs.as_slice(), ins.as_slice()) {
        return PatchOutcome::Skipped;
    }
    let rs = chars_of(replaced);
    if same_chars(rs.as_slice(), cs.as_slice()) {
        PatchOutcome::Skipped
    } else {
        PatchOutcome::Applied(string_of(rs.as_slice()))
    }
}

/// Applies a patch to the content of its file: an error if its pattern
/// does not compile; `Skipped` if its check finds the edit already made
/// or the edit changes nothing; else the new content.
pub fn patch_content(patch: &Patch, content: &str) -> (r: Result<PatchOutcome, PatchError>)
    ensures
        patch_result(*patch, content@, r),
{
    let cs = chars_of(content);
    let new_text: Vec<char> = match patch {
        Patch::Append { after, insert, marker, .. } => {
            let m = chars_of(marker.as_str());
            if contains_chars(cs.as_slice(), m.as_slice()) {
                return Ok(PatchOutcome::Skipped);
            }
            let a = chars_of(after.as_str());
            let ins = chars_of(insert.as_str());
            append_text(cs.as_slice(), a.as_slice(), ins.as_slice())
        },
        Patch::Replace { find, insert, .. } => {
            let ins = chars_of(insert.as_str());
            if contains_chars(cs.as_slice(), ins.as_slice()) {
                return Ok(PatchOutcome::Skipped);
            }
            let f = chars_of(find.as_str());
            replace_chars(cs.as_slice(), f.as_slice(), ins.as_slice())
        },
        Patch::RegexReplace { pattern, insert, .. } => {
            let re = match compile_pattern(pattern.as_str()) {
                Ok(re) => re,
                Err(_) => {
                    return Err(PatchError::InvalidPattern(string_of(chars_of(pattern.as_str()).as_slice())));
                },
            };
            let found = pattern_finds(&re, content);
            let replaced = if found {
                pattern_replace_all(&re, content, insert.as_str())
            } else {
                String::new()
            };
            return Ok(regex_patch_outcome(content, insert.as_str(), found, replaced.as_str()));
        },
    };
    if same_chars(new_text.as_slice(), cs.as_slice()) {
        Ok(PatchOutcome::Skipped)
    } else {
        Ok(PatchOutcome::Applied(string_of(new_text.as_slice())))
    }
}

/// Applies a patch to its file, given the file's content, or `None` for a
/// file that does not exist: a missing file is skipped, whatever the
/// patch.
pub fn apply_patch(patch: &Patch, content: Option<&str>) -> (r: Result<PatchOutcome, PatchError>)
    ensures
        match content {
            None => r matches Ok(PatchOutcome::Skipped),
            Some(c) => patch_result(*patch, c@, r),
        },
{
    match content {
        None => Ok(PatchOutcome::Skipped),
        Some(c) => patch_content(patch, c),
    }
}


proof fn lemma_join_contains(ms: Seq<Seq<char>>, k: int)
    requires
        0 <= k < ms.len(),
    ensures
        contains(join_lines(ms), ms[k]),
    decreases ms.len(),
{
    if ms.len() == 1 {
        lemma_contains_self(ms[0]);
    } else {
        let j = join_lines(ms.drop_last());
        if k == ms.len() - 1 {
            lemma_contains_self(ms.last());
            lemma_contains_within(j + seq!['\n'], ms.last(), seq![], ms[k]);
            assert(j + seq!['\n'] + ms.last() + seq![] == join_lines(ms));
        } else {
            lemma_join_contains(ms.drop_last(), k);
            lemma_contains_within(seq![], j, seq!['\n'] + ms.last(), ms[k]);
            assert(seq![] + j + (seq!['\n'] + ms.last()) == join_lines(ms));
        }
    }
}

/// A line that ends with a carriage return.
pub open spec fn ends_with_cr(l: Seq<char>) -> bool {
    l.len() > 0 && l.last() == '\r'
}

/// Lines without newlines or trailing carriage returns.
pub open spec fn plain_lines(ls: Seq<Seq<char>>) -> bool {
    forall|k: int| 0 <= k < ls.len() ==> !(#[trigger] ls[k]).contains('\n') && !ends_with_cr(ls[k])
}

proof fn lemma_split_joined(ls: Seq<Seq<char>>)
    requires
        ls.len() > 0,
        plain_lines(ls),
    ensures
        line_split(join_lines(ls)) == (ls.drop_last(), ls.last()),
    decreases ls.len(),
{
    if ls.len() == 1 {
        lemma_line_split_extend(seq![], ls[0]);
        assert(Seq::<char>::empty() + ls[0] == ls[0]);
        assert(ls.drop_last() == Seq::<Seq<char>>::empty());
    } else {
        let prev = ls.drop_last();
        assert(plain_lines(prev)) by {
            assert forall|k: int| 0 <= k < prev.len() implies !(#[trigger] prev[k]).contains('\n')
                && !ends_with_cr(prev[k]) by {
                assert(prev[k] == ls[k]);
            }
        }
        lemma_split_joined(prev);
        let j = join_lines(prev) + seq!['\n'];
        assert(j.drop_last() == join_lines(prev));
        assert(strip_cr(prev.last()) == prev.last());
        assert(prev.drop_last().push(prev.last()) == prev);
        assert(line_split(j) == (prev, Seq::<char>::empty()));
        lemma_line_split_extend(j, ls.last());
        assert(Seq::<char>::empty() + ls.last() == ls.last());
    }
}

proof fn lemma_lines_of_terminated(ls: Seq<Seq<char>>)
    requires
        plain_lines(ls),
    ensures
        lines_of(join_lines(ls) + seq!['\n']) == if ls.len() == 0 {
            seq![Seq::<char>::empty()]
        } else {
            ls
        },
{
    let j = join_lines(ls) + seq!['\n'];
    assert(j.drop_last() == join_lines(ls));
    if ls.len() == 0 {
        assert(join_lines(ls) == Seq::<char>::empty());
        assert(line_split(Seq::<char>::empty()) == (
            Seq::<Seq<char>>::empty(),
            Seq::<char>::empty(),
        ));
        assert(Seq::<Seq<char>>::empty().push(Seq::<char>::empty()) == seq![Seq::<char>::empty()]);
    } else {
        lemma_split_joined(ls);
        assert(strip_cr(ls.last()) == ls.last());
        assert(ls.drop_last().push(ls.last()) == ls);
    }
}

/// Every line of the text ends without a carriage return.
pub open spec fn lines_end_clean(content: Seq<char>) -> bool {
    forall|k: int| 0 <= k < lines_of(content).len() ==> !ends_with_cr(#[trigger] lines_of(content)[k])
}

/// Some line of the text contains `after`.
pub open spec fn some_line_contains(content: Seq<char>, after: Seq<char>) -> bool {
    exists|k: int| 0 <= k < lines_of(content).len() && contains(#[trigger] lines_of(content)[k], after)
}

/// The inputs on which applying a patch twice is the same as once.
/// An append needs its marker inside its insertion, and then fails only
/// where nothing matches and rewriting the lines would change them again
/// (a line that ends in a carriage return, or an empty file with an empty
/// `after`). A regex patch fails where its result still matches the
/// pattern but lacks the insertion.
pub open spec fn settles(p: Patch, content: Seq<char>) -> bool {
    match p {
        Patch::Append { after, insert, marker, .. } => contains(insert@, marker@) && (contains(
            content,
            marker@,
        ) || some_line_contains(content, after@) || (lines_end_clean(content) && (lines_of(
            content,
        ).len() > 0 || after@.len() > 0))),
        Patch::Replace { .. } => true,
        Patch::RegexReplace { insert, pattern, .. } => regex_finds(
            pattern@,
            after_patch(p, content),
        ) ==> contains(after_patch(p, content), insert@),
    }
}

/// Applying a patch a second time leaves the file as the first time left
/// it: an edit, once made, is recognised by the patch's own check.
pub proof fn lemma_patch_idempotent(p: Patch, content: Seq<char>)
    requires
        patch_valid(p),
        settles(p, content),
    ensures
        after_patch(p, after_patch(p, content)) == after_patch(p, content),
{
    let n = after_patch(p, content);
    match p {
        Patch::Append { after, insert, marker, .. } => {
            if !contains(content, marker@) {
                let ls = lines_of(content);
                let ms = appended_lines(content, after@, insert@);
                if some_line_contains(content, after@) {
                    let k = choose|k: int| 0 <= k < ls.len() && contains(#[trigger] ls[k], after@);
                    lemma_contains_self(insert@);
                    lemma_contains_within(ls[k] + seq!['\n'], insert@, seq![], insert@);
                    assert(ls[k] + seq!['\n'] + insert@ + seq![] == ms[k]);
                    lemma_join_contains(ms, k);
                    lemma_contains_trans(join_lines(ms), ms[k], insert@);
                    lemma_contains_within(seq![], join_lines(ms), seq!['\n'], insert@);
                    assert(seq![] + join_lines(ms) + seq!['\n'] == n);
                    lemma_contains_trans(n, insert@, marker@);
                } else {
                    assert(ms == ls) by {
                        assert forall|k: int| 0 <= k < ls.len() implies ms[k] == ls[k] by {
                            assert(!contains(ls[k], after@));
                        }
                    }
                    lemma_lines_have_no_newline(content);
                    assert(plain_lines(ls)) by {
                        assert forall|k: int| 0 <= k < ls.len() implies !(#[trigger] ls[k]).contains(
                            '\n',
                        ) && !ends_with_cr(ls[k]) by {
                            assert(!ends_with_cr(lines_of(content)[k]));
                        }
                    }
                    lemma_lines_of_terminated(ls);
                    if !contains(n, marker@) {
                        let ls2 = lines_of(n);
                        let ms2 = appended_lines(n, after@, insert@);
                        if ls.len() == 0 {
                            assert(!occurs_at(Seq::<char>::empty(), after@, 0));
                            assert(!contains(Seq::<char>::empty(), after@));
                            assert(ms2 == ls2) by {
                                assert(ms2[0] == ls2[0]);
                            }
                            assert(join_lines(ls2) == Seq::<char>::empty());
                            assert(join_lines(ls) == Seq::<char>::empty());
                        } else {
                            assert(ms2 == ls2) by {
                                assert forall|k: int| 0 <= k < ls2.len() implies ms2[k] == ls2[k] by {
                                    assert(!contains(ls[k], after@));
                                }
                            }
                        }
                    }
                }
            }
        },
        Patch::Replace { find, insert, .. } => {
            if !contains(content, insert@) {
                if find@.len() == 0 || contains(content, find@) {
                    lemma_replaced_shows_replacement(content, find@, insert@);
                } else {
                    lemma_replaced_nothing(content, find@, insert@);
                }
            }
        },
        Patch::RegexReplace { .. } => {},
    }
}

} // verus!
