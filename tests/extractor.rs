use stm32_project_tool::makefile::{parse_makefile, unfold_multiline};

fn strings(v: &[&str]) -> Vec<String> {
    v.iter().map(|s| s.to_string()).collect()
}

#[test]
fn unfold_joins_continuation_lines() {
    let lines = strings(&["A \\", "B \\", "C"]);
    assert_eq!(unfold_multiline(&lines), strings(&["A B C"]));
}

#[test]
fn unfold_emits_dangling_continuation() {
    let lines = strings(&["x", "A \\"]);
    assert_eq!(unfold_multiline(&lines), strings(&["x", "A "]));
}

#[test]
fn unfold_keeps_plain_lines_and_trims_their_ends() {
    let lines = strings(&["a  ", "", "b\\", "c"]);
    assert_eq!(unfold_multiline(&lines), strings(&["a", "", "b c"]));
}

#[test]
fn unfold_of_nothing_is_nothing() {
    assert_eq!(unfold_multiline(&[]), Vec::<String>::new());
}

#[test]
fn known_key_extraction_keeps_order() {
    let cfg = parse_makefile("C_SOURCES = a.c b.c\nC_SOURCES += c.c");
    assert_eq!(cfg.c_sources, strings(&["a.c", "b.c", "c.c"]));
}

#[test]
fn sources_keep_duplicates() {
    let cfg = parse_makefile("ASM_SOURCES = s.s\nASM_SOURCES += s.s\n");
    assert_eq!(cfg.asm_sources, strings(&["s.s", "s.s"]));
}

#[test]
fn include_dedup_keeps_first() {
    let cfg = parse_makefile("C_INCLUDES = -Ifoo -Ibar -Ifoo");
    assert_eq!(cfg.includes, strings(&["foo", "bar"]));
}

#[test]
fn include_keys_share_one_list_and_skip_other_tokens() {
    let cfg = parse_makefile("C_INCLUDES = -Ia foo\nAS_INCLUDES = -Ib -Ia\n");
    assert_eq!(cfg.includes, strings(&["a", "b"]));
}

#[test]
fn define_dedup_and_prefixes() {
    let cfg = parse_makefile(
        "C_DEFS = -DUSE_HAL -DSTM32F407xx -DUSE_HAL\nAS_DEFS = -include app.h PLAIN -D\n",
    );
    assert_eq!(cfg.defines, strings(&["USE_HAL", "STM32F407xx", "app.h", "PLAIN"]));
}

#[test]
fn define_with_attached_include_prefix() {
    let cfg = parse_makefile("C_DEFS = -includeconfig.h\n");
    assert_eq!(cfg.defines, strings(&["config.h"]));
}

#[test]
fn scalars_last_assignment_wins() {
    let cfg = parse_makefile(
        "TARGET = first\nTARGET := blinky\nBUILD_DIR = build\nLDSCRIPT = STM32F407VGTx_FLASH.ld\n",
    );
    assert_eq!(cfg.target, Some("blinky".to_string()));
    assert_eq!(cfg.build_dir, Some("build".to_string()));
    assert_eq!(cfg.ldscript, Some("STM32F407VGTx_FLASH.ld".to_string()));
}

#[test]
fn flags_and_libs_split_on_whitespace() {
    let cfg = parse_makefile(
        "CFLAGS = -O2  -Wall\tx\nASFLAGS = -g\nLDFLAGS = -specs=nano.specs\nLIBS = -lc -lm -lnosys\n",
    );
    assert_eq!(cfg.cflags, strings(&["-O2", "-Wall", "x"]));
    assert_eq!(cfg.asflags, strings(&["-g"]));
    assert_eq!(cfg.ldflags, strings(&["-specs=nano.specs"]));
    assert_eq!(cfg.libs, strings(&["-lc", "-lm", "-lnosys"]));
}

#[test]
fn continuation_lists_read_as_one_line() {
    let cfg = parse_makefile("C_SOURCES =  \\\nCore/Src/main.c \\\r\nCore/Src/gpio.c\n\nTARGET = t\n");
    assert_eq!(cfg.c_sources, strings(&["Core/Src/main.c", "Core/Src/gpio.c"]));
    assert_eq!(cfg.target, Some("t".to_string()));
}

#[test]
fn comments_unknown_keys_and_rules_are_ignored() {
    let cfg = parse_makefile(
        "# TARGET = no\n  #C_SOURCES = x.c\nOPT = -Og\nall: $(TARGET)\n\tc_sources = y.c\nTARGET=yes\n",
    );
    assert_eq!(cfg.target, Some("yes".to_string()));
    assert!(cfg.c_sources.is_empty());
    assert!(cfg.cflags.is_empty());
}

#[test]
fn empty_input_gives_empty_config() {
    let cfg = parse_makefile("");
    assert_eq!(cfg.target, None);
    assert_eq!(cfg.build_dir, None);
    assert_eq!(cfg.ldscript, None);
    assert!(cfg.c_sources.is_empty() && cfg.includes.is_empty() && cfg.defines.is_empty());
}

#[test]
fn value_may_be_empty_and_spaces_around_operator_are_optional() {
    let cfg = parse_makefile("TARGET =\nBUILD_DIR+=out\n");
    assert_eq!(cfg.target, Some(String::new()));
    assert_eq!(cfg.build_dir, Some("out".to_string()));
}

#[test]
fn include_prefix_is_stripped_once() {
    let cfg = parse_makefile("C_INCLUDES = -I-Ifoo -I\n");
    assert_eq!(cfg.includes, strings(&["-Ifoo", ""]));
}

#[test]
fn define_prefix_is_stripped_once() {
    let cfg = parse_makefile("C_DEFS = -D-DX -include-includey\n");
    assert_eq!(cfg.defines, strings(&["-DX", "-includey"]));
}
