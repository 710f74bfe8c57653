use crate::constants;
use crate::platform::{Arch, Platform};
use vstd::prelude::*;

verus! {

// ===========================================================================
// Tool-download bookkeeping
// ===========================================================================

/// The OS name used in tool download URLs; meaningful only off `Other`.
pub open spec fn os_name(p: Platform) -> Seq<char> {
    if p == Platform::Windows {
        "windows"@
    } else if p == Platform::MacOs {
        "darwin"@
    } else {
        "linux"@
    }
}

/// The architecture name used in tool download URLs.
pub open spec fn arch_name(a: Arch) -> Seq<char> {
    if a == Arch::Amd64 {
        "amd64"@
    } else {
        "arm64"@
    }
}

/// The OS and architecture names for download URLs, or nothing when the
/// combination is unsupported.
pub fn get_os_and_arch(p: Platform, a: Arch) -> (r: Option<(String, String)>)
    ensures
        match r {
            Some(oa) => {
                &&& p != Platform::Other
                &&& a != Arch::Other
                &&& oa.0@ == os_name(p)
                &&& oa.1@ == arch_name(a)
            },
            None => p == Platform::Other || a == Arch::Other,
        },
{
    let os = match p {
        Platform::Windows => String::from_str("windows"),
        Platform::MacOs => String::from_str("darwin"),
        Platform::Linux => String::from_str("linux"),
        Platform::Other => {
            return None;
        },
    };
    let arch = match a {
        Arch::Amd64 => String::from_str("amd64"),
        Arch::Arm64 => String::from_str("arm64"),
        Arch::Other => {
            return None;
        },
    };
    Some((os, arch))
}

/// Where the pinned cluster-client release can be fetched for the given
/// platform.
pub open spec fn kubectl_url_text(p: Platform, a: Arch) -> Seq<char> {
    if p == Platform::Windows {
        "https://dl.k8s.io/release/"@ + "v1.28.4"@ + "/bin/windows/"@ + arch_name(a)
            + "/kubectl.exe"@
    } else {
        "https://dl.k8s.io/release/"@ + "v1.28.4"@ + "/bin/"@ + os_name(p) + "/"@ + arch_name(a)
            + "/kubectl"@
    }
}

pub fn kubectl_download_url(p: Platform, a: Arch) -> (r: Option<String>)
    ensures
        match r {
            Some(url) => p != Platform::Other && a != Arch::Other && url@ == kubectl_url_text(
                p,
                a,
            ),
            None => p == Platform::Other || a == Arch::Other,
        },
{
    let oa = match get_os_and_arch(p, a) {
        Some(oa) => oa,
        None => {
            return None;
        },
    };
    let mut url = String::new();
    url.append("https://dl.k8s.io/release/");
    url.append(constants::kubectl_version());
    if crate::platform::is_windows(p) {
        url.append("/bin/windows/");
        url.append(oa.1.as_str());
        url.append("/kubectl.exe");
    } else {
        url.append("/bin/");
        url.append(oa.0.as_str());
        url.append("/");
        url.append(oa.1.as_str());
        url.append("/kubectl");
    }
    Some(url)
}

/// The base name of the pinned package-manager release archive.
pub open spec fn helm_archive_text(p: Platform, a: Arch) -> Seq<char> {
    "helm-"@ + "v3.12.3"@ + "-"@ + os_name(p) + "-"@ + arch_name(a)
}

pub fn helm_archive_name(p: Platform, a: Arch) -> (r: Option<String>)
    ensures
        match r {
            Some(name) => p != Platform::Other && a != Arch::Other && name@ == helm_archive_text(
                p,
                a,
            ),
            None => p == Platform::Other || a == Arch::Other,
        },
{
    let oa = match get_os_and_arch(p, a) {
        Some(oa) => oa,
        None => {
            return None;
        },
    };
    let mut name = String::new();
    name.append("helm-");
    name.append(constants::helm_version());
    name.append("-");
    name.append(oa.0.as_str());
    name.append("-");
    name.append(oa.1.as_str());
    Some(name)
}

pub fn helm_download_url(p: Platform, a: Arch) -> (r: Option<String>)
    ensures
        match r {
            Some(url) => p != Platform::Other && a != Arch::Other && url@ == "https://get.helm.sh/"@
                + helm_archive_text(p, a) + ".tar.gz"@,
            None => p == Platform::Other || a == Arch::Other,
        },
{
    let name = match helm_archive_name(p, a) {
        Some(n) => n,
        None => {
            return None;
        },
    };
    let mut url = String::new();
    url.append("https://get.helm.sh/");
    url.append(name.as_str());
    url.append(".tar.gz");
    Some(url)
}

// ===========================================================================
// Download and extraction commands
// ===========================================================================

pub open spec fn windows_download_text(url: Seq<char>, out_path: Seq<char>) -> Seq<char> {
    "Invoke-WebRequest -Uri '"@ + url + "' -OutFile '"@ + out_path + "'"@
}

/// The program and arguments that fetch `url` into `out_path`: a shell
/// download helper on the desktop OS family, `curl` elsewhere.
pub fn download_command(p: Platform, url: &str, out_path: &str) -> (r: (String, Vec<String>))
    ensures
        p == Platform::Windows ==> r.0@ == "powershell"@ && r.1.deep_view() == seq![
            "-Command"@,
            windows_download_text(url@, out_path@),
        ],
        p != Platform::Windows ==> r.0@ == "curl"@ && r.1.deep_view() == seq![
            "-L"@,
            "-o"@,
            out_path@,
            url@,
        ],
{
    if crate::platform::is_windows(p) {
        let mut cmd = String::new();
        cmd.append("Invoke-WebRequest -Uri '");
        cmd.append(url);
        cmd.append("' -OutFile '");
        cmd.append(out_path);
        cmd.append("'");
        let mut v: Vec<String> = Vec::new();
        v.push(String::from_str("-Command"));
        v.push(cmd);
        proof {
            assert(v.deep_view() =~= seq!["-Command"@, windows_download_text(url@, out_path@)]);
        }
        (String::from_str("powershell"), v)
    } else {
        let mut v: Vec<String> = Vec::new();
        v.push(String::from_str("-L"));
        v.push(String::from_str("-o"));
        v.push(String::from_str(out_path));
        v.push(String::from_str(url));
        proof {
            assert(v.deep_view() =~= seq!["-L"@, "-o"@, out_path@, url@]);
        }
        (String::from_str("curl"), v)
    }
}

pub open spec fn windows_extract_text(gz_path: Seq<char>, dir: Seq<char>) -> Seq<char> {
    "tar -xzf '"@ + gz_path + "' -C '"@ + dir + "'"@
}

/// The program and arguments that unpack `gz_path` into `dir`.
pub fn extract_command(p: Platform, gz_path: &str, dir: &str) -> (r: (String, Vec<String>))
    ensures
        p == Platform::Windows ==> r.0@ == "powershell"@ && r.1.deep_view() == seq![
            "-Command"@,
            windows_extract_text(gz_path@, dir@),
        ],
        p != Platform::Windows ==> r.0@ == "tar"@ && r.1.deep_view() == seq![
            "-xzf"@,
            gz_path@,
            "-C"@,
            dir@,
        ],
{
    if crate::platform::is_windows(p) {
        let mut cmd = String::new();
        cmd.append("tar -xzf '");
        cmd.append(gz_path);
        cmd.append("' -C '");
        cmd.append(dir);
        cmd.append("'");
        let mut v: Vec<String> = Vec::new();
        v.push(String::from_str("-Command"));
        v.push(cmd);
        proof {
            assert(v.deep_view() =~= seq!["-Command"@, windows_extract_text(gz_path@, dir@)]);
        }
        (String::from_str("powershell"), v)
    } else {
        let mut v: Vec<String> = Vec::new();
        v.push(String::from_str("-xzf"));
        v.push(String::from_str(gz_path));
        v.push(String::from_str("-C"));
        v.push(String::from_str(dir));
        proof {
            assert(v.deep_view() =~= seq!["-xzf"@, gz_path@, "-C"@, dir@]);
        }
        (String::from_str("tar"), v)
    }
}

// ===========================================================================
// Package-manager repository commands
// ===========================================================================

pub fn repo_list_args() -> (r: Vec<String>)
    ensures
        r.deep_view() == seq!["repo"@, "list"@],
{
    let mut v: Vec<String> = Vec::new();
    v.push(String::from_str("repo"));
    v.push(String::from_str("list"));
    proof {
        assert(v.deep_view() =~= seq!["repo"@, "list"@]);
    }
    v
}

pub fn repo_add_args() -> (r: Vec<String>)
    ensures
        r.deep_view() == seq!["repo"@, "add"@, "med-helm"@, "http://166.111.153.65:7001"@],
{
    let mut v: Vec<String> = Vec::new();
    v.push(String::from_str("repo"));
    v.push(String::from_str("add"));
    v.push(String::from_str(constants::helm_repo_name()));
    v.push(String::from_str(constants::helm_repo_url()));
    proof {
        assert(v.deep_view() =~= seq![
            "repo"@,
            "add"@,
            "med-helm"@,
            "http://166.111.153.65:7001"@,
        ]);
    }
    v
}

pub fn repo_update_args() -> (r: Vec<String>)
    ensures
        r.deep_view() == seq!["repo"@, "update"@],
{
    let mut v: Vec<String> = Vec::new();
    v.push(String::from_str("repo"));
    v.push(String::from_str("update"));
    proof {
        assert(v.deep_view() =~= seq!["repo"@, "update"@]);
    }
    v
}

} // verus!
