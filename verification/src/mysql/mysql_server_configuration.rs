//! The server-side configuration of a MySQL installation.
use vstd::prelude::*;
use std::collections::BTreeMap;

verus! {

/// What the MySQL installation's configuration file holds.
#[derive(Debug)]
pub struct MysqlServerSideConfiguration {
    pub app_name: String,
    pub mysql_version: String,
    pub server_name: String,
    pub core_number: u8,
    pub mem: String,
    pub mysql_user: String,
    pub mysql_password: String,
    pub client_bin: String,
    pub dump_bin: String,
    pub dump_filename: String,
    pub mysql_admin_bin: String,
    pub mysql_log_file: String,
    pub local_dir: String,
    pub log_dir: String,
    pub task_cmd: BTreeMap<String, String>,
    pub crons: BTreeMap<String, String>,
    pub dump_prune_pattern: String,
    pub softwares: Vec<BTreeMap<String, String>>,
    pub start_command: String,
    pub stop_command: String,
    pub restart_command: String,
    pub status_command: String,
    pub uninstall_command: String,
    pub script_dir: String,
    pub package_dir: String,
    pub entry_point: String,
}

} // verus!
