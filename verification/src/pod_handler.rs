use crate::constants;
use crate::errors::OpError;
use crate::host_handler::{table_has_hostname, EntryModel, HostsFile};
use crate::text;
use vstd::prelude::*;

verus! {

// ===========================================================================
// Workload configuration
// ===========================================================================

/// A valid workload name: non-empty, lowercase ASCII letters and digits.
pub open spec fn is_name_char(c: char) -> bool {
    ('a' as u32 <= c as u32 && c as u32 <= 'z' as u32) || ('0' as u32 <= c as u32 && c as u32
        <= '9' as u32)
}

pub open spec fn valid_pod_name(s: Seq<char>) -> bool {
    s.len() > 0 && forall|i: int| 0 <= i < s.len() ==> is_name_char(#[trigger] s[i])
}

/// A user-requested pod: its name and optional resource limits. Unset
/// limits are resolved to the defaults only at render time.
#[derive(Debug)]
pub struct PodConfig {
    container_name: String,
    cpu: Option<u8>,
    memory: Option<u8>,
}

impl PodConfig {
    pub closed spec fn spec_name(&self) -> Seq<char> {
        self.container_name@
    }

    pub closed spec fn spec_cpu_setting(&self) -> Option<u8> {
        self.cpu
    }

    pub closed spec fn spec_memory_setting(&self) -> Option<u8> {
        self.memory
    }

    /// The CPU limit the manifest will carry.
    pub open spec fn spec_cpu(&self) -> u8 {
        match self.spec_cpu_setting() {
            Option::Some(v) => v,
            Option::None => constants::DEFAULT_CPU_CORES,
        }
    }

    /// The memory limit the manifest will carry.
    pub open spec fn spec_memory(&self) -> u8 {
        match self.spec_memory_setting() {
            Option::Some(v) => v,
            Option::None => constants::DEFAULT_MEMORY_GB,
        }
    }

    /// Builds a pod configuration, rejecting any name that is not made of
    /// lowercase ASCII letters and digits, or is empty.
    pub fn new_with_params(container_name: String, cpu: Option<u8>, memory: Option<u8>) -> (r:
        Result<PodConfig, OpError>)
        ensures
            match r {
                Ok(c) => {
                    &&& valid_pod_name(container_name@)
                    &&& c.spec_name() == container_name@
                    &&& c.spec_cpu_setting() == cpu
                    &&& c.spec_memory_setting() == memory
                },
                Err(e) => {
                    &&& e == OpError::Validation
                    &&& !valid_pod_name(container_name@)
                },
            },
    {
        let n = container_name.as_str().unicode_len();
        if n == 0 {
            return Err(OpError::Validation);
        }
        let mut i: usize = 0;
        while i < n
            invariant
                0 <= i <= n,
                n == container_name@.len(),
                forall|j: int| 0 <= j < i ==> is_name_char(#[trigger] container_name@[j]),
            decreases n - i,
        {
            let c = container_name.as_str().get_char(i);
            let u = c as u32;
            let lower = 'a' as u32 <= u && u <= 'z' as u32;
            let digit = '0' as u32 <= u && u <= '9' as u32;
            if !lower && !digit {
                return Err(OpError::Validation);
            }
            i += 1;
        }
        Ok(PodConfig { container_name, cpu, memory })
    }

    /// The pod's name.
    pub fn container_name(&self) -> (r: &str)
        ensures
            r@ == self.spec_name(),
    {
        self.container_name.as_str()
    }

    /// The CPU limit, with the default applied.
    pub fn get_cpu(&self) -> (r: u8)
        ensures
            r == self.spec_cpu(),
    {
        match self.cpu {
            Some(v) => v,
            None => constants::DEFAULT_CPU_CORES,
        }
    }

    /// The memory limit, with the default applied.
    pub fn get_memory(&self) -> (r: u8)
        ensures
            r == self.spec_memory(),
    {
        match self.memory {
            Some(v) => v,
            None => constants::DEFAULT_MEMORY_GB,
        }
    }
}

// ===========================================================================
// Manifest rendering
// ===========================================================================

/// The deployment manifest: a pure function of the configuration and the
/// credentials, so rendering is deterministic by construction.
pub open spec fn manifest_text(
    name: Seq<char>,
    cpu: u8,
    memory: u8,
    user: Seq<char>,
    password: Seq<char>,
) -> Seq<char> {
    "replicaCount: 1\n\nimage:\n  repository: base.med.thu/public/rstudio\n  pullPolicy: Always\n  tag: \"v1\"\n\ncontainerName: \""@
        + name
        + "\"\n\nservice:\n  type: ClusterIP\n  port: 8787\n\nresources:\n  limits:\n    cpu: \""@
        + text::dec_str(cpu as nat) + "\"\n    memory: \""@ + text::dec_str(memory as nat)
        + "\"\n\nimageCredentials:\n  registry: base.med.thu\n  username: "@ + user
        + "\n  password: "@ + password
        + "\n\nloadDataPath:\n  public:\n    - \"input\"\n    - \"lessonPublic\"\n  personal:\n    - \""@
        + user + "\"\n\ntype: centos\n\nnfs: \"Aries\"\n\ntransfer: false\n        "@
}

/// Rendering the same configuration and credentials twice yields the same
/// manifest: the result is fully determined by the inputs.
pub proof fn lemma_render_deterministic(
    name: Seq<char>,
    cpu: u8,
    memory: u8,
    user: Seq<char>,
    password: Seq<char>,
    r1: Seq<char>,
    r2: Seq<char>,
)
    requires
        r1 == manifest_text(name, cpu, memory, user, password),
        r2 == manifest_text(name, cpu, memory, user, password),
    ensures
        r1 == r2,
{
}

impl PodConfig {
    /// Renders the deployment manifest for this pod under the given
    /// registry credentials.
    pub fn render_manifest(&self, user: &str, password: &str) -> (r: String)
        ensures
            r@ == manifest_text(
                self.spec_name(),
                self.spec_cpu(),
                self.spec_memory(),
                user@,
                password@,
            ),
    {
        let mut out = String::new();
        out.append(
            "replicaCount: 1\n\nimage:\n  repository: base.med.thu/public/rstudio\n  pullPolicy: Always\n  tag: \"v1\"\n\ncontainerName: \"",
        );
        out.append(self.container_name.as_str());
        out.append(
            "\"\n\nservice:\n  type: ClusterIP\n  port: 8787\n\nresources:\n  limits:\n    cpu: \"",
        );
        let cpu = text::decimal_string(self.get_cpu());
        out.append(cpu.as_str());
        out.append("\"\n    memory: \"");
        let memory = text::decimal_string(self.get_memory());
        out.append(memory.as_str());
        out.append("\"\n\nimageCredentials:\n  registry: base.med.thu\n  username: ");
        out.append(user);
        out.append("\n  password: ");
        out.append(password);
        out.append(
            "\n\nloadDataPath:\n  public:\n    - \"input\"\n    - \"lessonPublic\"\n  personal:\n    - \"",
        );
        out.append(user);
        out.append("\"\n\ntype: centos\n\nnfs: \"Aries\"\n\ntransfer: false\n        ");
        proof {
            assert(out@ =~= manifest_text(
                self.spec_name(),
                self.spec_cpu(),
                self.spec_memory(),
                user@,
                password@,
            ));
        }
        out
    }

    /// The manifest's file name inside the configuration directory.
    pub fn manifest_file_name(&self) -> (r: String)
        ensures
            r@ == self.spec_name() + ".yaml"@,
    {
        let mut out = String::new();
        out.append(self.container_name.as_str());
        out.append(".yaml");
        out
    }

    /// The package-manager invocation that installs this pod from its
    /// persisted manifest.
    pub fn install_args(&self, manifest_path: &str) -> (r: Vec<String>)
        ensures
            r.deep_view() == seq![
                "install"@,
                self.spec_name(),
                "med-helm/alpha"@,
                "-f"@,
                manifest_path@,
            ],
    {
        let mut v: Vec<String> = Vec::new();
        v.push(String::from_str("install"));
        v.push(self.container_name.clone());
        v.push(String::from_str(constants::helm_chart_ref()));
        v.push(String::from_str("-f"));
        v.push(String::from_str(manifest_path));
        proof {
            assert(v.deep_view() =~= seq![
                "install"@,
                self.spec_name(),
                "med-helm/alpha"@,
                "-f"@,
                manifest_path@,
            ]);
        }
        v
    }

    /// The hostname registered in the hosts table after a successful
    /// install.
    pub fn website_hostname(&self) -> (r: String)
        ensures
            r@ == self.spec_name() + "."@ + "apps.med.thu"@,
    {
        let mut out = String::new();
        out.append(self.container_name.as_str());
        out.append(".");
        out.append(constants::website_domain());
        out
    }
}

// ===========================================================================
// Pod inventory
// ===========================================================================

/// The first token of each line, for lines that have one.
pub open spec fn first_tokens(lines: Seq<Seq<char>>) -> Seq<Seq<char>>
    decreases lines.len(),
{
    if lines.len() == 0 {
        Seq::<Seq<char>>::empty()
    } else {
        let ts = text::tokens(lines[0]);
        if ts.len() > 0 {
            seq![ts[0]] + first_tokens(lines.drop_first())
        } else {
            first_tokens(lines.drop_first())
        }
    }
}

/// The identifiers in the cluster client's tabular output: the first token
/// of every line after the header line.
pub open spec fn parse_pod_list(out: Seq<char>) -> Seq<Seq<char>> {
    first_tokens(text::split_lines(out).drop_first())
}

/// The package-manager release name derived from an identifier: the part
/// before its first separator, or the whole identifier without one.
pub open spec fn release_of(id: Seq<char>) -> Seq<char> {
    text::prefix_before(id, '-')
}

/// The website address derived from an identifier.
pub open spec fn website_of(id: Seq<char>) -> Seq<char> {
    "http://"@ + release_of(id) + "."@ + "apps.med.thu"@ + "/"@
}

/// The in-memory inventory of running workloads, rebuilt from scratch on
/// every listing operation.
pub struct PodList {
    pub pod_list: Vec<String>,
}

/// The website address of a pod identifier.
pub fn website_for(pod_name: &str) -> (r: String)
    ensures
        r@ == website_of(pod_name@),
{
    let e = text::find_char(pod_name, '-');
    let prefix = pod_name.substring_char(0, e);
    proof {
        assert(prefix@ =~= release_of(pod_name@));
    }
    let mut out = String::new();
    out.append("http://");
    out.append(prefix);
    out.append(".");
    out.append(constants::website_domain());
    out.append("/");
    out
}

impl PodList {
    pub fn new() -> (r: Self)
        ensures
            r.pod_list@.len() == 0,
    {
        PodList { pod_list: Vec::new() }
    }

    /// Rebuilds the inventory from the cluster client's listing output:
    /// the header line is discarded, and the first token of each remaining
    /// line is a workload identifier.
    pub fn refresh_from_output(&mut self, output: &str)
        ensures
            final(self).pod_list.deep_view() == parse_pod_list(output@),
    {
        let lines = text::split_into_lines(output);
        let ghost all = lines.deep_view().drop_first();
        let mut pods: Vec<String> = Vec::new();
        let mut i: usize = 1;
        proof {
            text::lemma_split_lines_len(output@);
            assert(lines.deep_view().skip(1) =~= all);
            assert(pods.deep_view() + first_tokens(all) =~= first_tokens(all));
        }
        while i < lines.len()
            invariant
                1 <= i <= lines@.len(),
                lines@.len() >= 1,
                all == lines.deep_view().drop_first(),
                parse_pod_list(output@) == pods.deep_view() + first_tokens(
                    lines.deep_view().skip(i as int),
                ),
            decreases lines@.len() - i,
        {
            let ghost remaining = lines.deep_view().skip(i as int);
            proof {
                assert(remaining[0] == lines.deep_view()[i as int]);
                assert(remaining.drop_first() =~= lines.deep_view().skip(i as int + 1));
                assert(lines.deep_view()[i as int] == lines@[i as int]@);
            }
            let ts = text::line_tokens(lines[i].as_str());
            if ts.len() > 0 {
                let ghost pre = pods.deep_view();
                pods.push(ts[0].clone());
                proof {
                    assert(ts.deep_view()[0] == ts@[0]@);
                    assert(pods.deep_view() =~= pre.push(ts.deep_view()[0]));
                    assert(pre + (seq![ts.deep_view()[0]] + first_tokens(remaining.drop_first()))
                        =~= pods.deep_view() + first_tokens(remaining.drop_first()));
                }
            }
            i += 1;
        }
        proof {
            assert(lines.deep_view().skip(lines@.len() as int) =~= Seq::<Seq<char>>::empty());
            assert(pods.deep_view() + Seq::<Seq<char>>::empty() =~= pods.deep_view());
        }
        self.pod_list = pods;
    }

    /// Whether `pod_name` is in the inventory.
    pub fn contains(&self, pod_name: &str) -> (r: bool)
        ensures
            r == self.pod_list.deep_view().contains(pod_name@),
    {
        let ghost deep = self.pod_list.deep_view();
        let mut i: usize = 0;
        while i < self.pod_list.len()
            invariant
                0 <= i <= self.pod_list@.len(),
                deep == self.pod_list.deep_view(),
                forall|k: int| 0 <= k < i ==> deep[k] != pod_name@,
            decreases self.pod_list@.len() - i,
        {
            proof {
                assert(deep[i as int] == self.pod_list@[i as int]@);
            }
            if text::str_eq(self.pod_list[i].as_str(), pod_name) {
                proof {
                    assert(deep[i as int] == pod_name@);
                }
                return true;
            }
            i += 1;
        }
        proof {
            if deep.contains(pod_name@) {
                let k = choose|k: int| 0 <= k < deep.len() && deep[k] == pod_name@;
                assert(deep[k] != pod_name@);
            }
        }
        false
    }

    /// The cluster-client invocation for an interactive login, or
    /// `PodNotFound` when the target is not in the inventory.
    pub fn login_args(&self, pod_name: &str) -> (r: Result<Vec<String>, OpError>)
        ensures
            match r {
                Ok(args) => {
                    &&& self.pod_list.deep_view().contains(pod_name@)
                    &&& args.deep_view() == seq![
                        "exec"@,
                        "-it"@,
                        pod_name@,
                        "--"@,
                        "sh"@,
                        "/cmd.sh"@,
                    ]
                },
                Err(e) => {
                    &&& e == OpError::PodNotFound
                    &&& !self.pod_list.deep_view().contains(pod_name@)
                },
            },
    {
        if !self.contains(pod_name) {
            return Err(OpError::PodNotFound);
        }
        let mut v: Vec<String> = Vec::new();
        v.push(String::from_str("exec"));
        v.push(String::from_str("-it"));
        v.push(String::from_str(pod_name));
        v.push(String::from_str("--"));
        v.push(String::from_str("sh"));
        v.push(String::from_str("/cmd.sh"));
        proof {
            assert(v.deep_view() =~= seq!["exec"@, "-it"@, pod_name@, "--"@, "sh"@, "/cmd.sh"@]);
        }
        Ok(v)
    }

    /// The release name to hand to the package manager's uninstall, or
    /// `PodNotFound` when the target is not in the inventory. The package
    /// manager is only ever invoked on an `Ok` result.
    pub fn uninstall_release(&self, pod_name: &str) -> (r: Result<String, OpError>)
        ensures
            match r {
                Ok(rel) => {
                    &&& self.pod_list.deep_view().contains(pod_name@)
                    &&& rel@ == release_of(pod_name@)
                },
                Err(e) => {
                    &&& e == OpError::PodNotFound
                    &&& !self.pod_list.deep_view().contains(pod_name@)
                },
            },
    {
        if !self.contains(pod_name) {
            return Err(OpError::PodNotFound);
        }
        let e = text::find_char(pod_name, '-');
        let prefix = pod_name.substring_char(0, e);
        proof {
            assert(prefix@ =~= release_of(pod_name@));
        }
        Ok(String::from_str(prefix))
    }
}

// ===========================================================================
// The install → hostname-registration coupling
// ===========================================================================

/// The hostname that a successful install registers.
pub open spec fn install_hostname_text(name: Seq<char>) -> Seq<char> {
    name + "."@ + "apps.med.thu"@
}

/// After a successful install, the pod's website hostname is added to the
/// hosts table under the fixed server address; a duplicate is rejected and
/// the table left unchanged (the caller downgrades that to a warning,
/// since the cluster-side install has already succeeded).
pub fn register_install_hostname(hosts: &mut HostsFile, config: &PodConfig) -> (r: Result<
    (),
    OpError,
>)
    ensures
        match r {
            Ok(()) => {
                &&& !table_has_hostname(old(hosts)@, install_hostname_text(config.spec_name()))
                &&& final(hosts)@ == old(hosts)@.push(
                    EntryModel {
                        ip: "166.111.153.65"@,
                        hostnames: seq![install_hostname_text(config.spec_name())],
                        comment: Option::Some("Added by thumed_login"@),
                    },
                )
            },
            Err(e) => {
                &&& final(hosts)@ == old(hosts)@
                &&& table_has_hostname(old(hosts)@, install_hostname_text(config.spec_name()))
                &&& e matches OpError::DuplicateHostname { hostname } && hostname@
                    == install_hostname_text(config.spec_name())
            },
        },
{
    let hostname = config.website_hostname();
    let hs = hostname.as_str();
    let names = [hs];
    let slice = names.as_slice();
    proof {
        assert(slice@ =~= seq![hs]);
    }
    let r = hosts.add_entry(
        constants::server_ip(),
        slice,
        Some(constants::hosts_entry_comment()),
    );
    match r {
        Ok(()) => {
            proof {
                assert(crate::host_handler::names_of(slice@) =~= seq![install_hostname_text(
                    config.spec_name(),
                )]);
                assert(slice@[0]@ == install_hostname_text(config.spec_name()));
            }
            Ok(())
        },
        Err(e) => {
            proof {
                assert(slice@.len() == 1);
                assert(slice@[0]@ == install_hostname_text(config.spec_name()));
            }
            Err(e)
        },
    }
}

/// The cluster-client invocation that lists the running workloads.
pub fn pod_list_args() -> (r: Vec<String>)
    ensures
        r.deep_view() == seq!["get"@, "pods"@],
{
    let mut v: Vec<String> = Vec::new();
    v.push(String::from_str("get"));
    v.push(String::from_str("pods"));
    proof {
        assert(v.deep_view() =~= seq!["get"@, "pods"@]);
    }
    v
}

/// The package-manager invocation that removes a release.
pub fn uninstall_args(release: &str) -> (r: Vec<String>)
    ensures
        r.deep_view() == seq!["uninstall"@, release@],
{
    let mut v: Vec<String> = Vec::new();
    v.push(String::from_str("uninstall"));
    v.push(String::from_str(release));
    proof {
        assert(v.deep_view() =~= seq!["uninstall"@, release@]);
    }
    v
}

} // verus!
