//! The server-side configuration of the backup tool.
use vstd::prelude::*;
use std::collections::BTreeMap;
use crate::common_util::SoftwareDescription;

verus! {

/// What the backup tool's configuration file holds.
#[derive(Debug)]
pub struct BorgServerSideConfiguration {
    pub app_name: String,
    pub entry_point: String,
    pub host_name: String,
    pub ssh_port: i32,
    pub server_name: String,
    pub core_number: u8,
    pub mem: String,
    pub user_name: String,
    pub log_dir: String,
    pub borg_bin: String,
    pub borg_init: String,
    pub borg_create: String,
    pub borg_prune: String,
    pub borg_list: String,
    pub borg_repo_path: String,
    pub local_dir: String,
    pub task_cmd: BTreeMap<String, String>,
    pub crons: BTreeMap<String, String>,
    pub borg_prune_pattern: String,
    pub softwares: Vec<SoftwareDescription>,
    pub uninstall_command: String,
    pub package_dir: String,
}

} // verus!
