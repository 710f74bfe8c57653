use vstd::prelude::*;

verus! {

// Default resource limits applied at render time when the user leaves a
// value unset; they are never stored back into a pod configuration.
pub const DEFAULT_CPU_CORES: u8 = 32;
pub const DEFAULT_MEMORY_GB: u8 = 50;

pub fn server_ip() -> (r: &'static str)
    ensures
        r@ == "166.111.153.65"@,
{
    "166.111.153.65"
}

pub fn website_domain() -> (r: &'static str)
    ensures
        r@ == "apps.med.thu"@,
{
    "apps.med.thu"
}

pub fn helm_repo_name() -> (r: &'static str)
    ensures
        r@ == "med-helm"@,
{
    "med-helm"
}

pub fn helm_repo_url() -> (r: &'static str)
    ensures
        r@ == "http://166.111.153.65:7001"@,
{
    "http://166.111.153.65:7001"
}

pub fn helm_chart_ref() -> (r: &'static str)
    ensures
        r@ == "med-helm/alpha"@,
{
    "med-helm/alpha"
}

pub fn kubectl_version() -> (r: &'static str)
    ensures
        r@ == "v1.28.4"@,
{
    "v1.28.4"
}

pub fn helm_version() -> (r: &'static str)
    ensures
        r@ == "v3.12.3"@,
{
    "v3.12.3"
}

/// Comment attached to hosts-table entries created by the install flow.
pub fn hosts_entry_comment() -> (r: &'static str)
    ensures
        r@ == "Added by thumed_login"@,
{
    "Added by thumed_login"
}

pub fn app_name() -> (r: &'static str)
    ensures
        r@ == "THU-Med Login Helper"@,
{
    "THU-Med Login Helper"
}

pub fn app_version() -> (r: &'static str)
    ensures
        r@ == "Lecture version"@,
{
    "Lecture version"
}

} // verus!
