use vstd::prelude::*;

verus! {

/// The operating-system family the helper runs on.
///
/// The family is explicit configuration handed in by the caller rather
/// than something read from the build target, so every platform-dependent
/// decision is an ordinary, testable function of this value.
#[derive(Clone, Copy, PartialEq, Eq, Structural, Debug)]
pub enum Platform {
    Windows,
    MacOs,
    Linux,
    Other,
}

/// The processor architecture, used to pick tool downloads.
#[derive(Clone, Copy, PartialEq, Eq, Structural, Debug)]
pub enum Arch {
    Amd64,
    Arm64,
    Other,
}

pub fn is_windows(p: Platform) -> (r: bool)
    ensures
        r == (p == Platform::Windows),
{
    match p {
        Platform::Windows => true,
        _ => false,
    }
}

pub fn is_unix(p: Platform) -> (r: bool)
    ensures
        r == (p == Platform::Linux || p == Platform::MacOs),
{
    match p {
        Platform::Linux => true,
        Platform::MacOs => true,
        _ => false,
    }
}

pub open spec fn spec_exe_name(p: Platform, name: Seq<char>) -> Seq<char> {
    if p == Platform::Windows {
        name + ".exe"@
    } else {
        name
    }
}

/// The executable name with the platform-appropriate extension.
pub fn get_exe_name(p: Platform, name: &str) -> (r: String)
    ensures
        r@ == spec_exe_name(p, name@),
{
    let mut out = String::new();
    out.append(name);
    if is_windows(p) {
        out.append(".exe");
    }
    out
}

pub open spec fn spec_dir_separator(p: Platform) -> Seq<char> {
    if p == Platform::Windows {
        "\\"@
    } else {
        "/"@
    }
}

/// The directory separator used when composing file paths.
pub fn get_dir_separator(p: Platform) -> (r: &'static str)
    ensures
        r@ == spec_dir_separator(p),
{
    if is_windows(p) {
        "\\"
    } else {
        "/"
    }
}

/// The path of a tool binary inside the binary directory.
pub fn get_bin_path(p: Platform, bin_dir: &str, name: &str) -> (r: String)
    ensures
        r@ == bin_dir@ + spec_dir_separator(p) + spec_exe_name(p, name@),
{
    let mut out = String::new();
    out.append(bin_dir);
    out.append(get_dir_separator(p));
    let exe = get_exe_name(p, name);
    out.append(exe.as_str());
    out
}

/// The shell used for interactive sessions and scripted commands.
pub fn get_shell_cmd(p: Platform) -> (r: &'static str)
    ensures
        p == Platform::Windows ==> r@ == "powershell"@,
        p != Platform::Windows ==> r@ == "sh"@,
{
    if is_windows(p) {
        "powershell"
    } else {
        "sh"
    }
}

/// The separator between entries of the search-path list.
pub fn get_path_separator(p: Platform) -> (r: &'static str)
    ensures
        p == Platform::Windows ==> r@ == ";"@,
        p != Platform::Windows ==> r@ == ":"@,
{
    if is_windows(p) {
        ";"
    } else {
        ":"
    }
}

} // verus!
