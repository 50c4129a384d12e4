//! Helpers shared by the watcher program: the framing of messages to the
//! installer client, software descriptions, and the database-location rule.
use vstd::prelude::*;

verus! {

/// A package to install: where to fetch it and the name to keep it under.
#[derive(Debug, PartialEq, Eq)]
pub struct SoftwareDescription {
    pub package_url: String,
    pub local_name: String,
}

/// The lines printed to hand `str_content` to the installer client: a start
/// marker, the content, an end marker.
pub fn client_message_lines(str_content: &str) -> (r: Vec<String>)
    ensures
        r.deep_view() == seq![
            "for-easy-installer-client-use-start"@,
            str_content@,
            "for-easy-installer-client-use-end"@,
        ],
{
    let mut r: Vec<String> = Vec::new();
    r.push(String::from_str("for-easy-installer-client-use-start"));
    r.push(String::from_str(str_content));
    r.push(String::from_str("for-easy-installer-client-use-end"));
    assert(r.deep_view() =~= seq![
        "for-easy-installer-client-use-start"@,
        str_content@,
        "for-easy-installer-client-use-end"@,
    ]);
    r
}

/// Whether the database location names a plain file path (it holds no `:`,
/// as a scheme or an in-memory database would), whose parent folder must
/// then exist.
pub fn requires_folder_check(database_url: &str) -> (r: bool)
    ensures
        r == !database_url@.contains(':'),
{
    let n = database_url.unicode_len();
    let mut i: usize = 0;
    while i < n
        invariant
            n == database_url@.len(),
            i <= n,
            forall|k: int| 0 <= k < i ==> database_url@[k] != ':',
        decreases n - i,
    {
        if database_url.get_char(i) == ':' {
            return false;
        }
        i = i + 1;
    }
    true
}

} // verus!
