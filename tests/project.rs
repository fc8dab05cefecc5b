use stm32_project_tool::contexts::{
    eide_include_dirs, eide_ld_file, eide_project_name, json_string_list, visible_dirs,
};
use stm32_project_tool::makefile::parse_makefile;
use stm32_project_tool::patch::Patch;
use stm32_project_tool::project::{
    clion_custom_init, cubemx_script, generate_random_string, get_toolchain, hse_value_patch,
    is_ioc_file_name, non_intrusive_header_patches, single_ioc_file, FpuType, Toolchain,
};

#[test]
fn toolchain_names() {
    assert_eq!(get_toolchain(&Toolchain::EwarmV832), "EWARM V8.32");
    assert_eq!(get_toolchain(&Toolchain::MdmArmV527), "MDK-ARM V5.27");
    assert_eq!(get_toolchain(&Toolchain::STM32CubeIDE), "STM32CubeIDE");
    assert_eq!(get_toolchain(&Toolchain::CMake), "CMake");
}

#[test]
fn script_for_cube_ide() {
    assert_eq!(
        cubemx_script("/p/x.ioc", Some(Toolchain::STM32CubeIDE)),
        "config load /p/x.ioc\nproject toolchain \"STM32CubeIDE\"\nproject generateunderroot 1\nproject couplefilesbyip 1\nproject generate\nexit"
    );
}

#[test]
fn script_for_other_toolchain_and_none() {
    assert_eq!(
        cubemx_script("a.ioc", Some(Toolchain::Makefile)),
        "config load a.ioc\nproject toolchain \"Makefile\"\nproject couplefilesbyip 1\nproject generate\nexit"
    );
    assert_eq!(
        cubemx_script("a.ioc", None),
        "config load a.ioc\nproject couplefilesbyip 1\nproject generate\nexit"
    );
}

#[test]
fn only_a_single_ioc_file_is_chosen() {
    let one = vec!["a.ioc".to_string()];
    let two = vec!["a.ioc".to_string(), "b.ioc".to_string()];
    assert_eq!(single_ioc_file(&one), Some(&"a.ioc".to_string()));
    assert_eq!(single_ioc_file(&two), None);
    assert_eq!(single_ioc_file(&vec![]), None);
}

#[test]
fn random_string_is_alphanumeric() {
    let s = generate_random_string(8).expect("a random seed");
    assert_eq!(s.chars().count(), 8);
    assert!(s.chars().all(|c| c.is_ascii_alphanumeric()));
    assert_eq!(generate_random_string(0), Some(String::new()));
}

#[test]
fn clion_patches() {
    let ps = clion_custom_init(FpuType::Hard);
    assert_eq!(ps.len(), 3);
    assert_eq!(
        ps[0],
        Patch::Replace {
            file: "CMakeLists_template.txt".to_string(),
            find: "include_directories(${includes})".to_string(),
            insert: "include_directories(${includes} UserCode)".to_string(),
        }
    );
    assert!(matches!(&ps[2], Patch::RegexReplace { insert, .. } if insert == "${0/#/}"));
    assert_eq!(clion_custom_init(FpuType::Soft), ps);
}

#[test]
fn header_patches_share_marker() {
    let ps = non_intrusive_header_patches();
    assert_eq!(ps.len(), 2);
    for p in ps.iter() {
        match p {
            Patch::Append { insert, marker, .. } => {
                assert_eq!(marker, "UserCode/app/app.h");
                assert!(insert.contains(marker.as_str()));
            }
            _ => panic!("not an append"),
        }
    }
}

#[test]
fn hse_patch_targets_project_ioc() {
    match hse_value_patch("demo") {
        Patch::RegexReplace { file, insert, .. } => {
            assert_eq!(file, "demo.ioc");
            assert_eq!(insert, "RCC.HSE_VALUE=8000000");
        }
        _ => panic!("not a regex patch"),
    }
}

#[test]
fn eide_values_from_config() {
    let cfg = parse_makefile("TARGET = blinky\nC_INCLUDES = -ICore/Inc\n");
    assert_eq!(eide_project_name(&cfg), "blinky");
    assert_eq!(eide_ld_file(&cfg), "");
    assert_eq!(eide_include_dirs(&cfg), vec!["Core/Inc".to_string(), "UserCode".to_string()]);
    let empty = parse_makefile("");
    assert_eq!(eide_project_name(&empty), "");
}

#[test]
fn hidden_dirs_are_left_out() {
    let names = vec![".git".to_string(), "Core".to_string(), "".to_string(), ".eide".to_string()];
    assert_eq!(visible_dirs(&names), vec!["Core".to_string(), "".to_string()]);
}

#[test]
fn json_of_strings() {
    let v = vec!["a".to_string(), "b\"c".to_string()];
    assert_eq!(json_string_list(&v), "[\"a\",\"b\\\"c\"]");
    assert_eq!(json_string_list(&vec![]), "[]");
    let esc = vec!["\\\n\t\r\u{8}\u{c}\u{1}\u{1f}é/".to_string()];
    assert_eq!(json_string_list(&esc), "[\"\\\\\\n\\t\\r\\b\\f\\u0001\\u001fé/\"]");
}

#[test]
fn ioc_file_names() {
    assert!(is_ioc_file_name("demo.ioc"));
    assert!(is_ioc_file_name("a.b.ioc"));
    assert!(!is_ioc_file_name(".ioc"));
    assert!(!is_ioc_file_name("demo.ioc.bak"));
    assert!(!is_ioc_file_name("demoioc"));
}
