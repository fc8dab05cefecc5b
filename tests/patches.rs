use stm32_project_tool::patch::{
    apply_patch, get_file, patch_content, regex_patch_outcome, Patch, PatchError, PatchOutcome,
};

fn append(file: &str, after: &str, insert: &str, marker: &str) -> Patch {
    Patch::Append {
        file: file.to_string(),
        after: after.to_string(),
        insert: insert.to_string(),
        marker: marker.to_string(),
    }
}

fn replace(find: &str, insert: &str) -> Patch {
    Patch::Replace { file: "f".to_string(), find: find.to_string(), insert: insert.to_string() }
}

fn regex(pattern: &str, insert: &str) -> Patch {
    Patch::RegexReplace {
        file: "f".to_string(),
        pattern: pattern.to_string(),
        insert: insert.to_string(),
    }
}

fn applied(s: &str) -> Result<PatchOutcome, PatchError> {
    Ok(PatchOutcome::Applied(s.to_string()))
}

/// The content after a patch ran once.
fn after(p: &Patch, content: &str) -> String {
    match patch_content(p, content) {
        Ok(PatchOutcome::Applied(s)) => s,
        Ok(PatchOutcome::Skipped) => content.to_string(),
        Err(e) => panic!("unexpected error {:?}", e),
    }
}

#[test]
fn append_inserts_then_is_a_no_op() {
    let p = append("CMakeLists.txt", "add_executable", "X", "X");
    let once = patch_content(&p, "project(p)\nadd_executable(x)\n");
    assert_eq!(once, applied("project(p)\nadd_executable(x)\nX\n"));
    assert_eq!(patch_content(&p, "project(p)\nadd_executable(x)\nX\n"), Ok(PatchOutcome::Skipped));
}

#[test]
fn append_after_every_matching_line() {
    let p = append("f", "CFLAGS", "# extra", "# extra");
    assert_eq!(
        patch_content(&p, "CFLAGS = a\nX = 1\nCFLAGS += b"),
        applied("CFLAGS = a\n# extra\nX = 1\nCFLAGS += b\n# extra\n")
    );
}

#[test]
fn append_skips_when_marker_present_anywhere() {
    let p = append("f", "a", "new", "sentinel");
    assert_eq!(patch_content(&p, "a\nsentinel here\n"), Ok(PatchOutcome::Skipped));
}

#[test]
fn append_normalises_line_endings() {
    let p = append("f", "zzz", "i", "i-marker");
    assert_eq!(patch_content(&p, "a\r\nb"), applied("a\nb\n"));
    assert_eq!(patch_content(&p, "a\nb\n"), Ok(PatchOutcome::Skipped));
}

#[test]
fn append_to_empty_file_writes_a_newline() {
    let p = append("f", "x", "i", "m");
    assert_eq!(patch_content(&p, ""), applied("\n"));
}

#[test]
fn replace_every_occurrence_then_skip() {
    let p = replace("include_directories(${includes})", "include_directories(${includes} UserCode)");
    let text = "include_directories(${includes})\nx\ninclude_directories(${includes})\n";
    let once = after(&p, text);
    assert_eq!(
        once,
        "include_directories(${includes} UserCode)\nx\ninclude_directories(${includes} UserCode)\n"
    );
    assert_eq!(patch_content(&p, &once), Ok(PatchOutcome::Skipped));
}

#[test]
fn replace_without_match_changes_nothing() {
    let p = replace("absent", "present");
    assert_eq!(patch_content(&p, "abc"), Ok(PatchOutcome::Skipped));
}

#[test]
fn replace_does_not_overlap() {
    let p = replace("aa", "b");
    assert_eq!(patch_content(&p, "aaa"), applied("ba"));
}

#[test]
fn replace_empty_find_surrounds_every_char() {
    let p = replace("", "-");
    assert_eq!(patch_content(&p, "ab"), applied("-a-b-"));
}

#[test]
fn regex_replace_strips_comment_markers() {
    let p = regex("(?m)^#(.*)$", "$1");
    let text = "#Uncomment for hardware floating point\n#foo\n#bar\n\n";
    let once = after(&p, text);
    assert_eq!(once, "Uncomment for hardware floating point\nfoo\nbar\n\n");
    assert_eq!(patch_content(&p, &once), Ok(PatchOutcome::Skipped));
}

#[test]
fn regex_replace_sets_value_then_skips() {
    let p = regex(r"RCC\.HSE_VALUE=(\d+)", "RCC.HSE_VALUE=8000000");
    let once = after(&p, "A=1\nRCC.HSE_VALUE=25000000\n");
    assert_eq!(once, "A=1\nRCC.HSE_VALUE=8000000\n");
    assert_eq!(patch_content(&p, &once), Ok(PatchOutcome::Skipped));
}

#[test]
fn regex_without_match_is_skipped() {
    let p = regex("nomatch[0-9]+", "x");
    assert_eq!(patch_content(&p, "abc"), Ok(PatchOutcome::Skipped));
}

#[test]
fn invalid_regex_is_an_error() {
    let p = regex("(unclosed", "x");
    assert_eq!(patch_content(&p, "abc"), Err(PatchError::InvalidPattern("(unclosed".to_string())));
}

#[test]
fn missing_file_is_skipped_for_every_mode() {
    let ps = [append("f", "a", "b", "b"), replace("a", "b"), regex("a", "b"), regex("(", "b")];
    for p in ps.iter() {
        assert_eq!(apply_patch(p, None), Ok(PatchOutcome::Skipped));
    }
}

#[test]
fn existing_file_is_patched() {
    let p = replace("a", "b");
    assert_eq!(apply_patch(&p, Some("xa")), applied("xb"));
}

#[test]
fn applying_twice_equals_applying_once() {
    let text = "add_executable(x)\ninclude_directories(${includes})\nRCC.HSE_VALUE=1\n";
    let ps = [
        append("f", "add_executable", "\n# h\nopts app.h\n", "app.h"),
        replace("include_directories(${includes})", "include_directories(${includes} UserCode)"),
        regex(r"RCC\.HSE_VALUE=(\d+)", "RCC.HSE_VALUE=8000000"),
    ];
    for p in ps.iter() {
        let once = after(p, text);
        assert_ne!(once, text);
        assert_eq!(after(p, &once), once);
    }
}

#[test]
fn file_of_each_mode() {
    assert_eq!(get_file(&append("a.txt", "x", "y", "z")), "a.txt");
    assert_eq!(get_file(&replace("x", "y")), "f");
    assert_eq!(get_file(&regex("x", "y")), "f");
}

#[test]
fn regex_outcome_decisions() {
    assert_eq!(regex_patch_outcome("abc", "x", false, "zzz"), PatchOutcome::Skipped);
    assert_eq!(regex_patch_outcome("abx", "x", true, "zzz"), PatchOutcome::Skipped);
    assert_eq!(regex_patch_outcome("abc", "x", true, "abc"), PatchOutcome::Skipped);
    assert_eq!(regex_patch_outcome("abc", "x", true, "axc"), PatchOutcome::Applied("axc".to_string()));
}
