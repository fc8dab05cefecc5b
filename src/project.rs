//! Project-setup decisions: the code generator's toolchain names and
//! script, and the patches that set a project tree up.

use vstd::prelude::*;
use crate::patch::Patch;
use crate::text::{chars_of, extend_range, string_of};

verus! {

/// A toolchain that the code generator can target.
#[derive(Debug, Clone, Copy, PartialEq, Eq, Structural, PartialOrd, Ord)]
pub enum Toolchain {
    /// EWARM V8.32
    EwarmV832,
    /// EWARM V8
    EwarmV800,
    /// EWARM V7
    EwarmV700,
    /// MDK-ARM V5.32
    MdmArmV532,
    /// MDK-ARM V5.27
    MdmArmV527,
    /// MDK-ARM V5
    MdmArmV500,
    /// MDK-ARM V4
    MdmArmV400,
    /// STM32CubeIDE
    STM32CubeIDE,
    /// Makefile
    Makefile,
    /// CMake
    CMake,
}

/// The floating-point unit setting of a project.
#[derive(Debug, Clone, Copy, PartialEq, Eq, Structural, PartialOrd, Ord)]
pub enum FpuType {
    Hard,
    Soft,
}

/// The name by which the code generator knows a toolchain.
pub open spec fn toolchain_name(t: Toolchain) -> Seq<char> {
    match t {
        Toolchain::EwarmV832 => "EWARM V8.32"@,
        Toolchain::EwarmV800 => "EWARM V8"@,
        Toolchain::EwarmV700 => "EWARM V7"@,
        Toolchain::MdmArmV532 => "MDK-ARM V5.32"@,
        Toolchain::MdmArmV527 => "MDK-ARM V5.27"@,
        Toolchain::MdmArmV500 => "MDK-ARM V5"@,
        Toolchain::MdmArmV400 => "MDK-ARM V4"@,
        Toolchain::STM32CubeIDE => "STM32CubeIDE"@,
        Toolchain::Makefile => "Makefile"@,
        Toolchain::CMake => "CMake"@,
    }
}

/// The name by which the code generator knows a toolchain.
pub fn get_toolchain(toolchain: &Toolchain) -> (r: &'static str)
    ensures
        r@ == toolchain_name(*toolchain),
{
    match toolchain {
        Toolchain::EwarmV832 => "EWARM V8.32",
        Toolchain::EwarmV800 => "EWARM V8",
        Toolchain::EwarmV700 => "EWARM V7",
        Toolchain::MdmArmV532 => "MDK-ARM V5.32",
        Toolchain::MdmArmV527 => "MDK-ARM V5.27",
        Toolchain::MdmArmV500 => "MDK-ARM V5",
        Toolchain::MdmArmV400 => "MDK-ARM V4",
        Toolchain::STM32CubeIDE => "STM32CubeIDE",
        Toolchain::Makefile => "Makefile",
        Toolchain::CMake => "CMake",
    }
}

fn owned(s: &str) -> (r: String)
    ensures
        r@ == s@,
{
    string_of(chars_of(s).as_slice())
}

fn concat(a: &str, b: &str) -> (r: String)
    ensures
        r@ == a@ + b@,
{
    let mut cs = chars_of(a);
    let bs = chars_of(b);
    extend_range(&mut cs, bs.as_slice(), 0, bs.len());
    assert(bs@.subrange(0, bs@.len() as int) == bs@);
    string_of(cs.as_slice())
}

/// The build template of a CMake project.
pub open spec fn cmake_template() -> Seq<char> {
    "CMakeLists_template.txt"@
}

/// The pattern of the commented-out hardware floating-point block.
pub open spec fn hard_fpu_block() -> Seq<char> {
    "(?ms)^#Uncomment for hardware floating point(?:\n#.*?)*\n?(?:\n|$)"@
}

/// The patches that set a CMake project up: the user code directory joins
/// the include directories and the source globs, and the floating-point
/// block is rewritten.
pub fn clion_custom_init(fpu: FpuType) -> (r: Vec<Patch>)
    ensures
        r@.len() == 3,
        r@[0] matches Patch::Replace { file, find, insert } && file@ == cmake_template() && find@
            == "include_directories(${includes})"@ && insert@
            == "include_directories(${includes} UserCode)"@,
        r@[1] matches Patch::Replace { file, find, insert } && file@ == cmake_template() && find@
            == "file(GLOB_RECURSE SOURCES ${sources})"@ && insert@
            == "file(GLOB_RECURSE SOURCES ${sources} \"UserCode/*.*\")"@,
        r@[2] matches Patch::RegexReplace { file, pattern, insert } && file@ == cmake_template()
            && pattern@ == hard_fpu_block() && insert@ == "${0/#/}"@,
{
    let mut r: Vec<Patch> = Vec::new();
    r.push(
        Patch::Replace {
            file: owned("CMakeLists_template.txt"),
            find: owned("include_directories(${includes})"),
            insert: owned("include_directories(${includes} UserCode)"),
        },
    );
    r.push(
        Patch::Replace {
            file: owned("CMakeLists_template.txt"),
            find: owned("file(GLOB_RECURSE SOURCES ${sources})"),
            insert: owned("file(GLOB_RECURSE SOURCES ${sources} \"UserCode/*.*\")"),
        },
    );
    let fpu_patch = match fpu {
        FpuType::Hard => Patch::RegexReplace {
            file: owned("CMakeLists_template.txt"),
            pattern: owned("(?ms)^#Uncomment for hardware floating point(?:\n#.*?)*\n?(?:\n|$)"),
            insert: owned("${0/#/}"),
        },
        FpuType::Soft => Patch::RegexReplace {
            file: owned("CMakeLists_template.txt"),
            pattern: owned("(?ms)^#Uncomment for hardware floating point(?:\n#.*?)*\n?(?:\n|$)"),
            insert: owned("${0/#/}"),
        },
    };
    r.push(fpu_patch);
    r
}

/// The marker of the force-included application header.
pub open spec fn app_header_marker() -> Seq<char> {
    "UserCode/app/app.h"@
}

/// The patches that make every translation unit include the application
/// header without touching generated sources: one for the CMake template,
/// one for the Makefile.
pub fn non_intrusive_header_patches() -> (r: Vec<Patch>)
    ensures
        r@.len() == 2,
        r@[0] matches Patch::Append { file, after, insert, marker } && file@ == cmake_template()
            && after@ == "add_executable"@ && insert@
            == "\n# 非侵入式引入头文件\ntarget_compile_options(${PROJECT_NAME}.elf PRIVATE -include ${CMAKE_SOURCE_DIR}/UserCode/app/app.h)\n"@
            && marker@ == app_header_marker(),
        r@[1] matches Patch::Append { file, after, insert, marker } && file@ == "Makefile"@
            && after@ == "CFLAGS += $(MCU)"@ && insert@
            == "\n# 非侵入式引入头文件\nCFLAGS += -include UserCode/app/app.h\n"@ && marker@
            == app_header_marker(),
{
    let mut r: Vec<Patch> = Vec::new();
    r.push(
        Patch::Append {
            file: owned("CMakeLists_template.txt"),
            after: owned("add_executable"),
            insert: owned(
                "\n# 非侵入式引入头文件\ntarget_compile_options(${PROJECT_NAME}.elf PRIVATE -include ${CMAKE_SOURCE_DIR}/UserCode/app/app.h)\n",
            ),
            marker: owned("UserCode/app/app.h"),
        },
    );
    r.push(
        Patch::Append {
            file: owned("Makefile"),
            after: owned("CFLAGS += $(MCU)"),
            insert: owned("\n# 非侵入式引入头文件\nCFLAGS += -include UserCode/app/app.h\n"),
            marker: owned("UserCode/app/app.h"),
        },
    );
    r
}

/// The patch that sets the external oscillator of a new project's
/// configuration file, `<project_name>.ioc`, to 8 MHz.
pub fn hse_value_patch(project_name: &str) -> (r: Patch)
    ensures
        r matches Patch::RegexReplace { file, pattern, insert } && file@ == project_name@
            + ".ioc"@ && pattern@ == "RCC\\.HSE_VALUE=(\\d+)"@ && insert@
            == "RCC.HSE_VALUE=8000000"@,
{
    Patch::RegexReplace {
        file: concat(project_name, ".ioc"),
        pattern: owned("RCC\\.HSE_VALUE=(\\d+)"),
        insert: owned("RCC.HSE_VALUE=8000000"),
    }
}


fn push_str(cs: &mut Vec<char>, s: &str)
    ensures
        final(cs)@ == old(cs)@ + s@,
{
    let t = chars_of(s);
    extend_range(cs, t.as_slice(), 0, t.len());
    assert(t@.subrange(0, t@.len() as int) == t@);
}

/// The command script that makes the code generator load `ioc`, select
/// the toolchain if one is given (and generate under the project root for
/// STM32CubeIDE), and generate the code with one file pair per peripheral.
/// Every command but the final `exit` ends with a newline, the
/// `project generateunderroot 1` command included: this is deliberate, so
/// that it never runs into the next command.
pub open spec fn cubemx_script_text(ioc: Seq<char>, toolchain: Option<Toolchain>) -> Seq<char> {
    "config load "@ + ioc + "\n"@ + match toolchain {
        Some(t) => "project toolchain \""@ + toolchain_name(t) + "\"\n"@ + if t
            == Toolchain::STM32CubeIDE {
            "project generateunderroot 1\n"@
        } else {
            Seq::<char>::empty()
        },
        None => Seq::<char>::empty(),
    } + "project couplefilesbyip 1\nproject generate\nexit"@
}

/// The code generator's command script for the configuration file `ioc`.
pub fn cubemx_script(ioc: &str, toolchain: Option<Toolchain>) -> (r: String)
    ensures
        r@ == cubemx_script_text(ioc@, toolchain),
{
    let mut cs: Vec<char> = Vec::new();
    push_str(&mut cs, "config load ");
    push_str(&mut cs, ioc);
    push_str(&mut cs, "\n");
    let ghost head = cs@;
    match toolchain {
        Some(t) => {
            push_str(&mut cs, "project toolchain \"");
            push_str(&mut cs, get_toolchain(&t));
            push_str(&mut cs, "\"\n");
            if matches!(t, Toolchain::STM32CubeIDE) {
                push_str(&mut cs, "project generateunderroot 1\n");
            }
        },
        None => {},
    }
    let ghost mid = cs@;
    push_str(&mut cs, "project couplefilesbyip 1\nproject generate\nexit");
    proof {
        let tail = "project couplefilesbyip 1\nproject generate\nexit"@;
        match toolchain {
            Some(t) => {
                let sel = "project toolchain \""@ + toolchain_name(t) + "\"\n"@ + if t
                    == Toolchain::STM32CubeIDE {
                    "project generateunderroot 1\n"@
                } else {
                    Seq::<char>::empty()
                };
                assert(mid == head + sel);
                assert(cs@ == head + sel + tail);
            },
            None => {
                assert(mid == head + Seq::<char>::empty());
            },
        }
    }
    string_of(cs.as_slice())
}

/// The configuration file to generate from: the only one there is, and
/// none where there are several or none.
pub fn single_ioc_file(files: &Vec<String>) -> (r: Option<&String>)
    ensures
        r is Some <==> files@.len() == 1,
        r matches Some(f) ==> *f == files@[0],
{
    if files.len() == 1 {
        Some(&files[0])
    } else {
        None
    }
}

/// A file name whose extension is `ioc`: it ends with `.ioc` after a
/// non-empty stem.
pub open spec fn is_ioc_name(name: Seq<char>) -> bool {
    name.len() > 4 && name.subrange(name.len() - 4, name.len() as int) == seq!['.', 'i', 'o', 'c']
}

/// Whether a file name is that of a code-generator configuration file.
pub fn is_ioc_file_name(name: &str) -> (r: bool)
    ensures
        r == is_ioc_name(name@),
{
    let cs = chars_of(name);
    let n = cs.len();
    if n <= 4 {
        return false;
    }
    let r = cs[n - 4] == '.' && cs[n - 3] == 'i' && cs[n - 2] == 'o' && cs[n - 1] == 'c';
    assert(r ==> cs@.subrange(n - 4, n as int) =~= seq!['.', 'i', 'o', 'c']);
    assert(cs@.subrange(n - 4, n as int) == seq!['.', 'i', 'o', 'c'] ==> r) by {
        if cs@.subrange(n - 4, n as int) == seq!['.', 'i', 'o', 'c'] {
            assert(cs@.subrange(n - 4, n as int)[0] == cs@[n - 4]);
            assert(cs@.subrange(n - 4, n as int)[1] == cs@[n - 3]);
            assert(cs@.subrange(n - 4, n as int)[2] == cs@[n - 2]);
            assert(cs@.subrange(n - 4, n as int)[3] == cs@[n - 1]);
        }
    }
    r
}

/// An ASCII letter or digit.
pub open spec fn is_alnum(c: char) -> bool {
    ('a' <= c && c <= 'z') || ('A' <= c && c <= 'Z') || ('0' <= c && c <= '9')
}

#[verifier::external_type_specification]
#[verifier::external_body]
pub struct ExStdRng(rand::rngs::StdRng);

/// Relies on `rand::SeedableRng::try_from_os_rng` for `StdRng`: a
/// generator seeded by the operating system, or `None` where the system
/// cannot provide a seed (it reports that instead of panicking).
#[verifier::external_body]
fn seeded_rng() -> (r: Option<rand::rngs::StdRng>) {
    <rand::rngs::StdRng as rand::SeedableRng>::try_from_os_rng().ok()
}

/// Relies on `rand::distr::Alphanumeric`, sampled with `rand::Rng::sample`
/// from a `StdRng` (which draws without failing): a byte among the ASCII
/// letters and digits.
#[verifier::external_body]
fn sample_alphanumeric(rng: &mut rand::rngs::StdRng) -> (r: u8)
    ensures
        is_alnum(r as char),
{
    rand::Rng::sample(rng, rand::distr::Alphanumeric)
}

/// A random string of `length` ASCII letters and digits, or `None` where
/// no random seed can be had.
pub fn generate_random_string(length: usize) -> (r: Option<String>)
    ensures
        r matches Some(s) ==> s@.len() == length && forall|i: int|
            0 <= i < length ==> is_alnum(#[trigger] s@[i]),
{
    let mut rng = match seeded_rng() {
        Some(g) => g,
        None => return None,
    };
    let mut cs: Vec<char> = Vec::new();
    let mut i: usize = 0;
    while i < length
        invariant
            i <= length,
            cs@.len() == i,
            forall|j: int| 0 <= j < i ==> is_alnum(#[trigger] cs@[j]),
        decreases length - i,
    {
        let b = sample_alphanumeric(&mut rng);
        cs.push(b as char);
        i += 1;
    }
    Some(string_of(cs.as_slice()))
}

} // verus!
